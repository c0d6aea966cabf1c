//! Pattern search over a dump: pattern parsing (ASCII or hex), match
//! previews, and a chunked scanner that reads the dump in 256 KiB windows
//! with an overlap so that matches straddling two windows are found.

use vstd::prelude::*;
use vstd::utf8::encode_utf8;
use crate::text::{chars_of, push_chars, push_str, string_from_chars, hex_byte, push_hex_byte, is_whitespace_char,
    spec_trim, trim_chars};

verus! {

/// A single match found in the dump
#[derive(Debug, Clone, PartialEq, Eq)]
pub struct SearchResult {
    /// 1-based match index
    pub index: usize,
    /// Absolute byte offset in the dump
    pub byte_offset: u64,
    /// Block index
    pub block: u64,
    /// Page index within block
    pub page: u64,
    /// Byte offset within page
    pub offset_in_page: u64,
    /// Hex preview of snippet around match
    pub preview_hex: String,
    /// Printable ASCII preview of snippet around match
    pub preview_ascii: String,
}

/// Search format mode
#[derive(Debug, Clone, Copy, PartialEq, Eq, Structural)]
pub enum SearchMode {
    Ascii,
    Hex,
}

/// Search configuration options
#[derive(Debug, Clone)]
pub struct SearchOptions {
    pub pattern: String,
    pub mode: SearchMode,
    pub case_sensitive: bool,
    pub max_matches: usize,
}

impl Default for SearchOptions {
    fn default() -> (o: Self)
        ensures
            o.pattern@ == Seq::<char>::empty(),
            o.mode == SearchMode::Ascii,
            o.case_sensitive,
            o.max_matches == 1000,
    {
        SearchOptions { pattern: String::new(), mode: SearchMode::Ascii, case_sensitive: true, max_matches: 1000 }
    }
}

/// What `str::to_lowercase` returns for the given characters.
pub uninterp spec fn unicode_lowercase(s: Seq<char>) -> Seq<char>;

/// ASCII lower-casing of one character.
pub open spec fn ascii_lower_char(c: char) -> char {
    if 'A' <= c && c <= 'Z' { ((c as u32) + 32) as char } else { c }
}

/// Whether every character is ASCII.
pub open spec fn all_ascii(s: Seq<char>) -> bool {
    forall|i: int| 0 <= i < s.len() ==> (#[trigger] s[i] as u32) < 0x80
}

/// Calls `str::to_lowercase`, which maps each character to its Unicode
/// lowercase form; on ASCII text that turns `A`..`Z` into `a`..`z` and keeps
/// every other character. What it does with other characters is left to the
/// name `unicode_lowercase`.
#[verifier::external_body]
fn to_lowercase(s: &str) -> (r: String)
    ensures
        r@ == unicode_lowercase(s@),
        r@.len() >= s@.len(),
        all_ascii(s@) ==> r@ == s@.map_values(|c: char| ascii_lower_char(c)),
{
    s.to_lowercase()
}

/// The characters a hex pattern ignores: whitespace, `-`, `:` and `,`.
pub open spec fn hex_separator(c: char) -> bool {
    is_whitespace_char(c) || c == '-' || c == ':' || c == ','
}

/// The characters of a hex pattern without its separators, and without one
/// leading `0x`.
pub open spec fn hex_digits_of(s: Seq<char>) -> Seq<char> {
    let cleaned = s.filter(|c: char| !hex_separator(c));
    if cleaned.len() >= 2 && cleaned[0] == '0' && cleaned[1] == 'x' {
        cleaned.subrange(2, cleaned.len() as int)
    } else {
        cleaned
    }
}

/// Value of a hexadecimal digit character.
pub open spec fn hex_digit_value(c: char) -> Option<u8> {
    if '0' <= c && c <= '9' {
        Some(((c as u32) - 48) as u8)
    } else if 'a' <= c && c <= 'f' {
        Some(((c as u32) - 87) as u8)
    } else if 'A' <= c && c <= 'F' {
        Some(((c as u32) - 55) as u8)
    } else {
        None
    }
}

/// The byte two ASCII characters denote as a radix-16 `u8` (`FromStr`
/// rules: two hex digits, or `+` and one hex digit).
pub open spec fn hex_pair_value(a: char, b: char) -> Option<u8> {
    match (hex_digit_value(a), hex_digit_value(b)) {
        (Some(x), Some(y)) => Some((x * 16 + y) as u8),
        (None, Some(y)) => if a == '+' { Some(y) } else { None },
        _ => None,
    }
}

/// Outcome of reading hex digits two bytes at a time.
pub enum HexScan {
    /// The bytes read.
    Bytes(Seq<u8>),
    /// The first two-byte piece that is not a byte in hex (its characters).
    Bad(Seq<char>),
    /// A two-byte piece that would cut a character in two.
    Split,
}

/// Reads the characters `cs[k..]` as UTF-8 bytes two at a time: a pair of
/// ASCII characters gives one byte; a two-byte character is never a hex byte;
/// an ASCII character followed by a wider one, or a character of three or
/// four bytes, cuts a character in two.
pub open spec fn hex_scan(cs: Seq<char>, k: int) -> HexScan
    decreases cs.len() - k,
{
    if k >= cs.len() || k < 0 {
        HexScan::Bytes(seq![])
    } else if (cs[k] as u32) < 0x80 {
        if k + 1 < cs.len() && (cs[k + 1] as u32) < 0x80 {
            match hex_pair_value(cs[k], cs[k + 1]) {
                Some(v) => match hex_scan(cs, k + 2) {
                    HexScan::Bytes(rest) => HexScan::Bytes(seq![v] + rest),
                    other => other,
                },
                None => HexScan::Bad(seq![cs[k], cs[k + 1]]),
            }
        } else {
            HexScan::Split
        }
    } else if (cs[k] as u32) < 0x800 {
        HexScan::Bad(seq![cs[k]])
    } else {
        HexScan::Split
    }
}

/// A pattern whose hex digits can be read without cutting a character.
pub open spec fn pattern_ok(o: SearchOptions) -> bool {
    o.mode == SearchMode::Hex ==> {
        let h = hex_digits_of(spec_trim(o.pattern@));
        encode_utf8(h).len() % 2 == 0 ==> !(hex_scan(h, 0) is Split)
    }
}

/// The bytes to search for, or the reason the pattern is refused.
pub open spec fn spec_parse_pattern(o: SearchOptions) -> Result<Seq<u8>, Seq<char>> {
    let t = spec_trim(o.pattern@);
    if t.len() == 0 {
        Err("Search pattern is empty"@)
    } else {
        match o.mode {
            SearchMode::Ascii => Ok(
                if o.case_sensitive {
                    encode_utf8(t)
                } else {
                    encode_utf8(unicode_lowercase(t))
                },
            ),
            SearchMode::Hex => {
                let h = hex_digits_of(t);
                if encode_utf8(h).len() % 2 != 0 {
                    Err("Hex pattern must contain an even number of characters"@)
                } else {
                    match hex_scan(h, 0) {
                        HexScan::Bytes(b) => if b.len() == 0 {
                            Err("Hex pattern produced 0 bytes"@)
                        } else {
                            Ok(b)
                        },
                        HexScan::Bad(piece) => Err("Invalid hex byte: '"@ + piece + "'"@),
                        HexScan::Split => Err(seq![]),
                    }
                }
            },
        }
    }
}

/// The UTF-8 bytes of a string slice.
fn utf8_bytes(s: &str) -> (b: Vec<u8>)
    ensures
        b@ == encode_utf8(s@),
{
    let bytes = s.as_bytes();
    let mut out: Vec<u8> = Vec::new();
    let mut i: usize = 0;
    while i < bytes.len()
        invariant
            i <= bytes@.len(),
            bytes@ == encode_utf8(s@),
            out@ == bytes@.subrange(0, i as int),
        decreases bytes@.len() - i,
    {
        out.push(bytes[i]);
        i = i + 1;
        assert(out@ =~= bytes@.subrange(0, i as int));
    }
    assert(bytes@.subrange(0, i as int) =~= bytes@);
    out
}

fn hex_value(c: char) -> (r: Option<u8>)
    ensures
        r == hex_digit_value(c),
{
    if '0' <= c && c <= '9' {
        Some((c as u32 - 48) as u8)
    } else if 'a' <= c && c <= 'f' {
        Some((c as u32 - 87) as u8)
    } else if 'A' <= c && c <= 'F' {
        Some((c as u32 - 55) as u8)
    } else {
        None
    }
}

fn pair_value(a: char, b: char) -> (r: Option<u8>)
    ensures
        r == hex_pair_value(a, b),
{
    match (hex_value(a), hex_value(b)) {
        (Some(x), Some(y)) => Some(x * 16 + y),
        (None, Some(y)) => if a == '+' { Some(y) } else { None },
        _ => None,
    }
}

fn scan_hex(cs: &[char]) -> (r: Result<Vec<u8>, Vec<char>>)
    requires
        !(hex_scan(cs@, 0) is Split),
    ensures
        match hex_scan(cs@, 0) {
            HexScan::Bytes(b) => r matches Ok(v) && v@ == b,
            HexScan::Bad(p) => r matches Err(e) && e@ == p,
            HexScan::Split => false,
        },
{
    let mut out: Vec<u8> = Vec::new();
    let mut k: usize = 0;
    while k < cs.len()
        invariant
            k <= cs@.len(),
            !(hex_scan(cs@, 0) is Split),
            match hex_scan(cs@, 0) {
                HexScan::Bytes(b) => hex_scan(cs@, k as int) matches HexScan::Bytes(rest) && b == out@ + rest,
                other => hex_scan(cs@, k as int) == other,
            },
        decreases cs@.len() - k,
    {
        let c = cs[k];
        if (c as u32) < 0x80 {
            if k + 1 < cs.len() && (cs[k + 1] as u32) < 0x80 {
                match pair_value(c, cs[k + 1]) {
                    Some(v) => {
                        proof {
                            if let HexScan::Bytes(b) = hex_scan(cs@, 0) {
                                if let HexScan::Bytes(rest) = hex_scan(cs@, k + 2) {
                                    assert(out@.push(v) + rest =~= out@ + (seq![v] + rest));
                                }
                            }
                        }
                        out.push(v);
                        k = k + 2;
                    },
                    None => {
                        let mut e: Vec<char> = Vec::new();
                        e.push(c);
                        e.push(cs[k + 1]);
                        assert(e@ =~= seq![cs@[k as int], cs@[k + 1]]);
                        return Err(e);
                    },
                }
            } else {
                return Err(Vec::new());
            }
        } else if (c as u32) < 0x800 {
            let mut e: Vec<char> = Vec::new();
            e.push(c);
            assert(e@ =~= seq![cs@[k as int]]);
            return Err(e);
        } else {
            return Err(Vec::new());
        }
    }
    assert(out@ + seq![] =~= out@);
    Ok(out)
}

fn hex_digit_chars(t: &[char]) -> (h: Vec<char>)
    ensures
        h@ == hex_digits_of(t@),
{
    let mut cleaned: Vec<char> = Vec::new();
    let mut i: usize = 0;
    while i < t.len()
        invariant
            i <= t@.len(),
            cleaned@ == t@.subrange(0, i as int).filter(|c: char| !hex_separator(c)),
        decreases t@.len() - i,
    {
        let c = t[i];
        proof {
            let pre = t@.subrange(0, i as int);
            assert(t@.subrange(0, i + 1) =~= pre.push(c));
            reveal(Seq::filter);
            assert(pre.push(c).drop_last() =~= pre);
        }
        if !(is_whitespace(c) || c == '-' || c == ':' || c == ',') {
            cleaned.push(c);
        }
        i = i + 1;
    }
    assert(t@.subrange(0, t@.len() as int) =~= t@);
    if cleaned.len() >= 2 && cleaned[0] == '0' && cleaned[1] == 'x' {
        crate::text::slice_chars(cleaned.as_slice(), 2, cleaned.len())
    } else {
        cleaned
    }
}

fn is_whitespace(c: char) -> (b: bool)
    ensures
        b == is_whitespace_char(c),
{
    crate::text::char_is_whitespace(c)
}

/// Parse search pattern into raw search bytes: ASCII mode searches for the
/// trimmed pattern's UTF-8 bytes (lower-cased when case-insensitive), hex
/// mode reads byte pairs after dropping separators and one `0x`.
pub fn parse_pattern(options: &SearchOptions) -> (res: Result<Vec<u8>, String>)
    requires
        pattern_ok(*options),
    ensures
        match spec_parse_pattern(*options) {
            Ok(b) => res matches Ok(v) && v@ == b,
            Err(m) => res matches Err(e) && e@ == m,
        },
        res matches Ok(v) ==> v@.len() >= 1,
{
    let all = chars_of(options.pattern.as_str());
    let trimmed = trim_chars(all.as_slice());
    if trimmed.len() == 0 {
        return Err(string_from_chars(chars_of("Search pattern is empty").as_slice()));
    }
    match options.mode {
        SearchMode::Ascii => {
            let t = string_from_chars(trimmed.as_slice());
            if options.case_sensitive {
                assert(encode_utf8(t@).len() >= 1);
                Ok(utf8_bytes(t.as_str()))
            } else {
                let lower = to_lowercase(t.as_str());
                assert(encode_utf8(lower@).len() >= 1);
                Ok(utf8_bytes(lower.as_str()))
            }
        },
        SearchMode::Hex => {
            let h = hex_digit_chars(trimmed.as_slice());
            let hs = string_from_chars(h.as_slice());
            let hb = utf8_bytes(hs.as_str());
            if hb.len() % 2 != 0 {
                return Err(string_from_chars(
                    chars_of("Hex pattern must contain an even number of characters").as_slice(),
                ));
            }
            match scan_hex(h.as_slice()) {
                Ok(bytes) => {
                    if bytes.len() == 0 {
                        return Err(string_from_chars(chars_of("Hex pattern produced 0 bytes").as_slice()));
                    }
                    Ok(bytes)
                },
                Err(piece) => {
                    let mut m = chars_of("Invalid hex byte: '");
                    push_chars(&mut m, piece.as_slice());
                    push_str(&mut m, "'");
                    Err(string_from_chars(m.as_slice()))
                },
            }
        },
    }
}

/// Printable ASCII rendering of a byte: graphic characters and space as
/// themselves, anything else as `.`.
pub open spec fn preview_char(b: u8) -> char {
    if 0x20 <= b && b <= 0x7e { b as char } else { '.' }
}

/// Hex preview: two upper-case hex digits per byte, separated by spaces.
pub open spec fn preview_hex(s: Seq<u8>) -> Seq<char>
    decreases s.len(),
{
    if s.len() == 0 {
        seq![]
    } else if s.len() == 1 {
        hex_byte(s[0])
    } else {
        preview_hex(s.drop_last()) + seq![' '] + hex_byte(s.last())
    }
}

/// ASCII preview of bytes.
pub open spec fn preview_ascii(s: Seq<u8>) -> Seq<char> {
    s.map_values(|b: u8| preview_char(b))
}

pub(crate) fn printable(b: u8) -> (c: char)
    ensures
        c == preview_char(b),
{
    if 0x20 <= b && b <= 0x7e {
        b as char
    } else {
        '.'
    }
}

/// The hex and ASCII previews of a snippet.
pub fn generate_previews(snippet: &[u8]) -> (r: (String, String))
    ensures
        r.0@ == preview_hex(snippet@),
        r.1@ == preview_ascii(snippet@),
{
    let mut hex: Vec<char> = Vec::new();
    let mut ascii: Vec<char> = Vec::new();
    let mut i: usize = 0;
    while i < snippet.len()
        invariant
            i <= snippet@.len(),
            hex@ == preview_hex(snippet@.subrange(0, i as int)),
            ascii@ == preview_ascii(snippet@.subrange(0, i as int)),
        decreases snippet@.len() - i,
    {
        let b = snippet[i];
        let ghost pre = snippet@.subrange(0, i as int);
        let ghost next = snippet@.subrange(0, i + 1);
        assert(next.drop_last() =~= pre);
        if i > 0 {
            hex.push(' ');
        }
        push_hex_byte(&mut hex, b);
        ascii.push(printable(b));
        proof {
            if i == 0 {
                assert(hex@ =~= hex_byte(b));
            } else {
                assert(hex@ =~= preview_hex(pre) + seq![' '] + hex_byte(b));
            }
            assert(ascii@ =~= preview_ascii(next));
        }
        i = i + 1;
    }
    assert(snippet@.subrange(0, snippet@.len() as int) =~= snippet@);
    (string_from_chars(hex.as_slice()), string_from_chars(ascii.as_slice()))
}

/// Bytes read per scanning window.
pub const SEARCH_CHUNK: u64 = 262144;

/// ASCII lower-casing of a byte.
pub open spec fn ascii_lower_byte(b: u8) -> u8 {
    if 65 <= b && b <= 90 { (b + 32) as u8 } else { b }
}

/// Whether a dump byte matches a pattern byte (after ASCII lower-casing the
/// dump byte when the search ignores case).
pub open spec fn byte_matches(b: u8, p: u8, ci: bool) -> bool {
    if ci { ascii_lower_byte(b) == p } else { b == p }
}

/// Whether the pattern occurs in `data` at position `p`.
pub open spec fn matches_at(data: Seq<u8>, pat: Seq<u8>, ci: bool, p: int) -> bool {
    &&& 0 <= p
    &&& p + pat.len() <= data.len()
    &&& forall|k: int| 0 <= k < pat.len() ==> #[trigger] byte_matches(data[p + k], pat[k], ci)
}

/// The positions below `n` where the pattern occurs, in increasing order.
pub open spec fn match_list(data: Seq<u8>, pat: Seq<u8>, ci: bool, n: int) -> Seq<int>
    decreases n,
{
    if n <= 0 {
        seq![]
    } else {
        let prev = match_list(data, pat, ci, n - 1);
        if matches_at(data, pat, ci, n - 1) { prev.push(n - 1) } else { prev }
    }
}

/// Number of positions at which a pattern of length `len` fits entirely in
/// the first `offset` bytes.
pub open spec fn covered_positions(offset: int, len: int) -> int {
    if offset - len + 1 > 0 { offset - len + 1 } else { 0 }
}

pub open spec fn min_of(a: int, b: int) -> int {
    if a <= b { a } else { b }
}

/// End of the scanning window in which a match at `p` is found.
pub open spec fn chunk_end(p: int, len: int, total: int) -> int {
    min_of(((p + len + SEARCH_CHUNK - 1) / (SEARCH_CHUNK as int)) * SEARCH_CHUNK, total)
}

/// End of the preview of a match at `p`: at least 16 bytes (or the pattern's
/// length), cut at the end of the window in which it was found.
pub open spec fn preview_end(p: int, len: int, total: int) -> int {
    min_of(p + if len > 16 { len } else { 16 }, chunk_end(p, len, total))
}

/// Block of a dump offset (0 when blocks have no size).
pub open spec fn block_of(p: int, pl: int, bs: int) -> int {
    if bs * pl > 0 { p / (bs * pl) } else { 0 }
}

/// Offset within its block.
pub open spec fn offset_in_block(p: int, pl: int, bs: int) -> int {
    if bs * pl > 0 { p % (bs * pl) } else { 0 }
}

/// Page within its block.
pub open spec fn page_of(p: int, pl: int, bs: int) -> int {
    if pl > 0 { offset_in_block(p, pl, bs) / pl } else { 0 }
}

/// Offset within its page.
pub open spec fn offset_in_page_of(p: int, pl: int, bs: int) -> int {
    if pl > 0 { offset_in_block(p, pl, bs) % pl } else { 0 }
}

/// The fields of the `k`-th result (0-based) for a match at its byte offset.
pub open spec fn result_ok(r: SearchResult, k: int, data: Seq<u8>, len: int, pl: int, bs: int, total: int) -> bool {
    let p = r.byte_offset as int;
    let snippet = data.subrange(p, preview_end(p, len, total));
    &&& r.index == k + 1
    &&& r.block == block_of(p, pl, bs)
    &&& r.page == page_of(p, pl, bs)
    &&& r.offset_in_page == offset_in_page_of(p, pl, bs)
    &&& r.preview_hex@ == preview_hex(snippet)
    &&& r.preview_ascii@ == preview_ascii(snippet)
}

/// Byte offsets of the results.
pub open spec fn positions(rs: Seq<SearchResult>) -> Seq<int> {
    rs.map_values(|r: SearchResult| r.byte_offset as int)
}

/// The match positions a search reports: none for a pattern longer than a
/// window plus one byte; otherwise the first `max_matches` matches (the first
/// one only when `max_matches` is 0, and then only within the first window).
pub open spec fn reported_positions(data: Seq<u8>, pat: Seq<u8>, ci: bool, max: int) -> Seq<int> {
    if pat.len() > SEARCH_CHUNK + 1 {
        seq![]
    } else {
        let covered = if max == 0 { min_of(SEARCH_CHUNK as int, data.len() as int) } else { data.len() as int };
        let all = match_list(data, pat, ci, covered_positions(covered, pat.len() as int));
        let cap = if max == 0 { 1 } else { max };
        all.take(min_of(cap, all.len() as int))
    }
}

/// Positions examined over a longer dump are found the same way.
pub proof fn lemma_match_list_prefix(d1: Seq<u8>, d2: Seq<u8>, pat: Seq<u8>, ci: bool, n: int)
    requires
        d1.len() <= d2.len(),
        d2.subrange(0, d1.len() as int) == d1,
        n <= 0 || n + pat.len() - 1 <= d1.len(),
    ensures
        match_list(d1, pat, ci, n) == match_list(d2, pat, ci, n),
    decreases n,
{
    if n > 0 {
        lemma_match_list_prefix(d1, d2, pat, ci, n - 1);
        let p = n - 1;
        if p + pat.len() <= d1.len() {
            assert(matches_at(d1, pat, ci, p) == matches_at(d2, pat, ci, p)) by {
                if matches_at(d1, pat, ci, p) {
                    assert forall|k: int| 0 <= k < pat.len() implies #[trigger] byte_matches(
                        d2[p + k],
                        pat[k],
                        ci,
                    ) by {
                        assert(byte_matches(d1[p + k], pat[k], ci));
                        assert(d2.subrange(0, d1.len() as int)[p + k] == d2[p + k]);
                    }
                }
                if matches_at(d2, pat, ci, p) {
                    assert forall|k: int| 0 <= k < pat.len() implies #[trigger] byte_matches(
                        d1[p + k],
                        pat[k],
                        ci,
                    ) by {
                        assert(byte_matches(d2[p + k], pat[k], ci));
                        assert(d2.subrange(0, d1.len() as int)[p + k] == d2[p + k]);
                    }
                }
            }
        }
    }
}

/// The matches below `n` are the first ones of the matches below any `m >= n`.
pub proof fn lemma_match_list_mono(d: Seq<u8>, pat: Seq<u8>, ci: bool, n: int, m: int)
    requires
        n <= m,
    ensures
        match_list(d, pat, ci, n).len() <= match_list(d, pat, ci, m).len(),
        match_list(d, pat, ci, m).take(match_list(d, pat, ci, n).len() as int) == match_list(d, pat, ci, n),
    decreases m - n,
{
    if n < m {
        lemma_match_list_mono(d, pat, ci, n, m - 1);
        let a = match_list(d, pat, ci, n);
        let b = match_list(d, pat, ci, m - 1);
        let c = match_list(d, pat, ci, m);
        if m > 0 && matches_at(d, pat, ci, m - 1) {
            assert(c.take(a.len() as int) =~= b.take(a.len() as int));
        }
    } else {
        assert(match_list(d, pat, ci, m).take(match_list(d, pat, ci, m).len() as int) =~= match_list(
            d,
            pat,
            ci,
            m,
        ));
    }
}

/// Every listed match position is below `n`.
pub proof fn lemma_match_list_below(d: Seq<u8>, pat: Seq<u8>, ci: bool, n: int)
    ensures
        forall|k: int| 0 <= k < match_list(d, pat, ci, n).len() ==> #[trigger] match_list(d, pat, ci, n)[k] < n,
    decreases n,
{
    if n > 0 {
        lemma_match_list_below(d, pat, ci, n - 1);
        let prev = match_list(d, pat, ci, n - 1);
        let cur = match_list(d, pat, ci, n);
        assert forall|k: int| 0 <= k < cur.len() implies #[trigger] cur[k] < n by {
            if k < prev.len() {
                assert(cur[k] == prev[k]);
            }
        }
    }
}


/// A case-insensitive search lower-cases each dump byte in 'A'..='Z' (adds
/// 32) before comparing: such a byte matches exactly the pattern byte 32
/// above it (so `K` matches `k`), and any other byte matches only itself. A
/// case-sensitive search compares the bytes as they are.
pub proof fn lemma_case_insensitive_byte_match(b: u8, p: u8)
    ensures
        65 <= b <= 90 ==> (byte_matches(b, p, true) <==> p == b + 32),
        !(65 <= b <= 90) ==> (byte_matches(b, p, true) <==> p == b),
        byte_matches(b, p, false) <==> p == b,
{
}

/// The dump with every byte in 'A'..='Z' replaced by its lower-case letter.
pub open spec fn ascii_lowercased(data: Seq<u8>) -> Seq<u8> {
    data.map_values(|b: u8| if 65 <= b && b <= 90 { (b + 32) as u8 } else { b })
}

/// Searching ignoring case finds exactly the positions that a case-sensitive
/// search finds in the dump lower-cased, for every dump, pattern and match
/// limit: upper-case text such as `KIR0` is found by the pattern `kir0`.
pub proof fn lemma_case_insensitive_search(data: Seq<u8>, pat: Seq<u8>, max: int)
    ensures
        reported_positions(data, pat, true, max) == reported_positions(ascii_lowercased(data), pat, false, max),
{
    let low = ascii_lowercased(data);
    assert forall|p: int| #[trigger] matches_at(data, pat, true, p) == matches_at(low, pat, false, p) by {
        if 0 <= p && p + pat.len() <= data.len() {
            assert forall|k: int| 0 <= k < pat.len() implies #[trigger] byte_matches(data[p + k], pat[k], true)
                == byte_matches(low[p + k], pat[k], false) by {
                lemma_case_insensitive_byte_match(data[p + k], pat[k]);
            }
            if matches_at(data, pat, true, p) {
                assert forall|k: int| 0 <= k < pat.len() implies #[trigger] byte_matches(low[p + k], pat[k], false) by {
                    assert(byte_matches(data[p + k], pat[k], true));
                }
            }
            if matches_at(low, pat, false, p) {
                assert forall|k: int| 0 <= k < pat.len() implies #[trigger] byte_matches(data[p + k], pat[k], true) by {
                    assert(byte_matches(low[p + k], pat[k], false));
                }
            }
        }
    }
    let covered = if max == 0 { min_of(SEARCH_CHUNK as int, data.len() as int) } else { data.len() as int };
    lemma_match_list_same_matches(data, low, pat, covered_positions(covered, pat.len() as int));
}

/// Two dumps with the same matches at every position list the same matches.
proof fn lemma_match_list_same_matches(d1: Seq<u8>, d2: Seq<u8>, pat: Seq<u8>, n: int)
    requires
        forall|p: int| #[trigger] matches_at(d1, pat, true, p) == matches_at(d2, pat, false, p),
    ensures
        match_list(d1, pat, true, n) == match_list(d2, pat, false, n),
    decreases n,
{
    if n > 0 {
        lemma_match_list_same_matches(d1, d2, pat, n - 1);
        assert(matches_at(d1, pat, true, n - 1) == matches_at(d2, pat, false, n - 1));
    }
}
/// A scanner that reads the dump window by window.
pub struct SearchEngine {
    pattern: Vec<u8>,
    case_insensitive: bool,
    max_matches: usize,
    total_size: u64,
    page_length: u64,
    block_size: u64,
    offset: u64,
    prev_tail: Vec<u8>,
    results: Vec<SearchResult>,
    stopped: bool,
    seen: Ghost<Seq<u8>>,
    examined: Ghost<int>,
}

impl SearchEngine {
    /// The bytes read so far.
    pub closed spec fn seen(&self) -> Seq<u8> {
        self.seen@
    }

    /// The bytes searched for.
    pub closed spec fn pattern_bytes(&self) -> Seq<u8> {
        self.pattern@
    }

    /// Whether case is ignored (ASCII letters of the dump are lower-cased).
    pub closed spec fn ignores_case(&self) -> bool {
        self.case_insensitive
    }

    /// The most matches wanted.
    pub closed spec fn max(&self) -> usize {
        self.max_matches
    }

    /// The dump's size.
    pub closed spec fn total(&self) -> u64 {
        self.total_size
    }

    /// Bytes per page.
    pub closed spec fn pl(&self) -> u64 {
        self.page_length
    }

    /// Pages per block.
    pub closed spec fn bs(&self) -> u64 {
        self.block_size
    }

    /// The results found so far.
    pub closed spec fn found(&self) -> Seq<SearchResult> {
        self.results@
    }

    /// Whether the scan has stopped early (enough matches).
    pub closed spec fn is_stopped(&self) -> bool {
        self.stopped
    }

    /// The engine's invariant.
    pub closed spec fn wf(&self) -> bool {
        let len = self.pattern@.len() as int;
        let seen = self.seen@;
        let off = self.offset as int;
        let total = self.total_size as int;
        let rs = self.results@;
        let ci = self.case_insensitive;
        &&& len >= 1
        &&& seen.len() == off
        &&& off <= total
        &&& (off % (SEARCH_CHUNK as int) == 0 || off == total)
        &&& self.prev_tail@.len() <= off
        &&& self.prev_tail@ == seen.subrange(off - self.prev_tail@.len(), off)
        &&& self.page_length <= u32::MAX
        &&& self.block_size <= u32::MAX
        &&& (self.stopped && self.max_matches == 0 ==> off == min_of(SEARCH_CHUNK as int, total))
        &&& (self.max_matches == 0 ==> rs.len() <= 1)
        &&& (!self.stopped && off > 0 ==> rs.len() < self.max_matches)
        &&& (len > SEARCH_CHUNK + 1 ==> rs.len() == 0 && self.prev_tail@.len() == 0)
        &&& (len <= SEARCH_CHUNK + 1 ==> {
            &&& (off < total ==> self.prev_tail@.len() == if off == 0 { 0 } else { len - 1 })
            &&& 0 <= self.examined@ <= covered_positions(off, len)
            &&& positions(rs) == match_list(seen, self.pattern@, ci, self.examined@)
            &&& (!self.stopped ==> self.examined@ == covered_positions(off, len))
            &&& (self.stopped && self.max_matches >= 1 ==> rs.len() == self.max_matches)
            &&& (self.stopped && self.max_matches == 0 ==> rs.len() == 1 || self.examined@ == covered_positions(
                off,
                len,
            ))
        })
        &&& forall|k: int| #![trigger rs[k]] 0 <= k < rs.len() ==> {
            &&& result_ok(rs[k], k, seen, len, self.page_length as int, self.block_size as int, total)
            &&& preview_end(rs[k].byte_offset as int, len, total) <= off
            &&& rs[k].byte_offset as int + len <= off
        }
    }

    /// A scanner for the pattern of `options` over a dump of `total_size`
    /// bytes, or the reason the pattern is refused.
    pub fn new(options: &SearchOptions, total_size: u64, page_length: u32, block_size: u32) -> (res: Result<
        SearchEngine,
        String,
    >)
        requires
            pattern_ok(*options),
        ensures
            match spec_parse_pattern(*options) {
                Ok(b) => res matches Ok(e) && e.wf() && e.pattern_bytes() == b && e.ignores_case() == (
                options.mode == SearchMode::Ascii && !options.case_sensitive) && e.max() == options.max_matches
                    && e.total() == total_size && e.pl() == page_length && e.bs() == block_size && e.seen()
                    == Seq::<u8>::empty() && e.found() == Seq::<SearchResult>::empty() && !e.is_stopped(),
                Err(m) => res matches Err(s) && s@ == m,
            },
    {
        let pattern = match parse_pattern(options) {
            Ok(p) => p,
            Err(e) => return Err(e),
        };
        let ci = match options.mode {
            SearchMode::Ascii => !options.case_sensitive,
            SearchMode::Hex => false,
        };
        let e = SearchEngine {
            pattern,
            case_insensitive: ci,
            max_matches: options.max_matches,
            total_size,
            page_length: page_length as u64,
            block_size: block_size as u64,
            offset: 0,
            prev_tail: Vec::new(),
            results: Vec::new(),
            stopped: false,
            seen: Ghost(Seq::empty()),
            examined: Ghost(0),
        };
        proof {
            assert(positions(e.results@) =~= match_list(e.seen@, e.pattern@, ci, 0));
            assert(e.seen@.subrange(0, 0) =~= e.prev_tail@);
        }
        Ok(e)
    }

    /// The next window to read: its offset and length, or `None` once the
    /// dump is exhausted or enough matches were found.
    pub fn next_read(&self) -> (r: Option<(u64, u32)>)
        requires
            self.wf(),
        ensures
            (self.is_stopped() || self.seen().len() >= self.total()) ==> r is None,
            !(self.is_stopped() || self.seen().len() >= self.total()) ==> r == Some(
                (
                    self.seen().len() as u64,
                    min_of(self.total() - self.seen().len(), SEARCH_CHUNK as int) as u32,
                ),
            ),
    {
        if self.stopped || self.offset >= self.total_size {
            None
        } else {
            let left = self.total_size - self.offset;
            let len = if left <= SEARCH_CHUNK { left as u32 } else { SEARCH_CHUNK as u32 };
            Some((self.offset, len))
        }
    }

    /// Bytes read so far (search progress).
    pub fn progress(&self) -> (o: u64)
        requires
            self.wf(),
        ensures
            o == self.seen().len(),
    {
        self.offset
    }

    /// The results found so far.
    pub fn results(&self) -> (r: &Vec<SearchResult>)
        ensures
            r@ == self.found(),
    {
        &self.results
    }

    /// Takes the results out of the scanner.
    pub fn into_results(self) -> (r: Vec<SearchResult>)
        ensures
            r@ == self.found(),
    {
        self.results
    }
}

fn window_matches(data: &Vec<u8>, i: usize, pat: &Vec<u8>, ci: bool) -> (b: bool)
    requires
        i + pat@.len() <= data@.len(),
    ensures
        b == (forall|k: int| 0 <= k < pat@.len() ==> #[trigger] byte_matches(data@[i + k], pat@[k], ci)),
{
    let dlen = data.len();
    let mut k: usize = 0;
    while k < pat.len()
        invariant
            k <= pat@.len(),
            dlen == data@.len(),
            i + pat@.len() <= data@.len(),
            forall|j: int| 0 <= j < k ==> #[trigger] byte_matches(data@[i + j], pat@[j], ci),
        decreases pat@.len() - k,
    {
        let b = data[i + k];
        let lb = if ci && 65 <= b && b <= 90 { b + 32 } else { b };
        if lb != pat[k] {
            assert(!byte_matches(data@[i + k], pat@[k as int], ci));
            return false;
        }
        k = k + 1;
    }
    true
}

fn copy_range(v: &Vec<u8>, a: usize, b: usize) -> (r: Vec<u8>)
    requires
        a <= b <= v@.len(),
    ensures
        r@ == v@.subrange(a as int, b as int),
{
    let mut r: Vec<u8> = Vec::new();
    let mut i: usize = a;
    while i < b
        invariant
            a <= i <= b,
            b <= v@.len(),
            r@ == v@.subrange(a as int, i as int),
        decreases b - i,
    {
        r.push(v[i]);
        i = i + 1;
        assert(r@ =~= v@.subrange(a as int, i as int));
    }
    r
}

fn result_for(p: u64, index: usize, snippet: &[u8], pl: u64, bs: u64) -> (r: SearchResult)
    requires
        pl <= u32::MAX,
        bs <= u32::MAX,
    ensures
        r.index == index,
        r.byte_offset == p,
        r.block == block_of(p as int, pl as int, bs as int),
        r.page == page_of(p as int, pl as int, bs as int),
        r.offset_in_page == offset_in_page_of(p as int, pl as int, bs as int),
        r.preview_hex@ == preview_hex(snippet@),
        r.preview_ascii@ == preview_ascii(snippet@),
{
    assert(bs * pl <= u32::MAX * u32::MAX) by (nonlinear_arith)
        requires
            pl <= u32::MAX,
            bs <= u32::MAX,
    ;
    let stride = bs * pl;
    let block = if stride > 0 { p / stride } else { 0 };
    let in_block = if stride > 0 { p % stride } else { 0 };
    let page = if pl > 0 { in_block / pl } else { 0 };
    let offset_in_page = if pl > 0 { in_block % pl } else { 0 };
    let (preview_hex, preview_ascii) = generate_previews(snippet);
    SearchResult { index, byte_offset: p, block, page, offset_in_page, preview_hex, preview_ascii }
}

proof fn lemma_chunk_end(p: int, len: int, off: int, new_off: int, total: int)
    requires
        off % (SEARCH_CHUNK as int) == 0,
        0 <= off < total,
        new_off == min_of(off + SEARCH_CHUNK, total),
        off < p + len <= new_off,
    ensures
        chunk_end(p, len, total) == new_off,
{
    let c = SEARCH_CHUNK as int;
    let k = off / c;
    assert(off == k * c);
    assert((p + len + c - 1) / c == k + 1) by (nonlinear_arith)
        requires
            off == k * c,
            off < p + len <= off + c,
            c > 0,
    ;
}

impl SearchEngine {
    /// Scans the next window: `chunk` holds the bytes `next_read` asked for.
    /// Matches are reported in order, at most `max_matches` of them; the last
    /// bytes of the window (one less than the pattern) are kept so that a
    /// match straddling two windows is found in the next one.
    #[verifier::rlimit(60)]
    pub fn feed(&mut self, chunk: &[u8])
        requires
            old(self).wf(),
            !old(self).is_stopped(),
            old(self).seen().len() < old(self).total(),
            chunk@.len() == min_of(old(self).total() - old(self).seen().len(), SEARCH_CHUNK as int),
        ensures
            final(self).wf(),
            final(self).seen() == old(self).seen() + chunk@,
            final(self).pattern_bytes() == old(self).pattern_bytes(),
            final(self).ignores_case() == old(self).ignores_case(),
            final(self).max() == old(self).max(),
            final(self).total() == old(self).total(),
            final(self).pl() == old(self).pl(),
            final(self).bs() == old(self).bs(),
            old(self).found().len() <= final(self).found().len(),
            final(self).found().subrange(0, old(self).found().len() as int) == old(self).found(),
    {
        let ghost old_seen = self.seen@;
        let ghost old_results = self.results@;
        let ghost len = self.pattern@.len() as int;
        let ghost pat = self.pattern@;
        let ghost total = self.total_size as int;
        let ghost pl = self.page_length as int;
        let ghost bs = self.block_size as int;
        let ghost max = self.max_matches;
        let ghost stopped0 = self.stopped;
        let tail_len = self.prev_tail.len();
        let mut combined: Vec<u8> = Vec::new();
        let mut t: usize = 0;
        while t < tail_len
            invariant
                t <= tail_len,
                tail_len == self.prev_tail@.len(),
                combined@ == self.prev_tail@.subrange(0, t as int),
            decreases tail_len - t,
        {
            combined.push(self.prev_tail[t]);
            t = t + 1;
            assert(combined@ =~= self.prev_tail@.subrange(0, t as int));
        }
        let mut c: usize = 0;
        while c < chunk.len()
            invariant
                c <= chunk@.len(),
                combined@ == self.prev_tail@ + chunk@.subrange(0, c as int),
            decreases chunk@.len() - c,
        {
            combined.push(chunk[c]);
            c = c + 1;
            assert(combined@ =~= self.prev_tail@ + chunk@.subrange(0, c as int));
        }
        assert(chunk@.subrange(0, chunk@.len() as int) =~= chunk@);
        let old_offset = self.offset;
        let start: u64 = self.offset - tail_len as u64;
        let new_offset: u64 = self.offset + chunk.len() as u64;
        self.seen = Ghost(old_seen + chunk@);
        assert(combined@ =~= self.seen@.subrange(start as int, new_offset as int));
        proof {
            assert forall|k: int| 0 <= k < old_results.len() implies #[trigger] result_ok(
                old_results[k],
                k,
                self.seen@,
                len,
                pl,
                bs,
                total,
            ) by {
                assert(result_ok(old_results[k], k, old_seen, len, pl, bs, total));
                let q = old_results[k].byte_offset as int;
                assert(self.seen@.subrange(q, preview_end(q, len, total)) =~= old_seen.subrange(
                    q,
                    preview_end(q, len, total),
                ));
            }
            assert(self.seen@.subrange(0, old_seen.len() as int) =~= old_seen);
            if old_offset == 0 && len <= SEARCH_CHUNK + 1 {
                assert(positions(old_results).len() == old_results.len());
                assert(match_list(old_seen, pat, self.case_insensitive, self.examined@).len() == 0);
            }
            assert(old_results.len() < max || old_results.len() == 0);
            if len <= SEARCH_CHUNK + 1 {
                lemma_match_list_prefix(old_seen, self.seen@, pat, self.case_insensitive, self.examined@);
            }
        }
        let pat_len = self.pattern.len();
        let overlap = pat_len - 1;
        let clen = combined.len();
        let limit: usize = if clen >= overlap { clen - overlap } else { 0 };
        let ci = self.case_insensitive;
        let mut i: usize = 0;
        let mut hit = false;
        assert(len > SEARCH_CHUNK + 1 ==> clen < overlap);
        while i < limit
            invariant_except_break
                !hit,
            invariant
                i <= limit,
                self.max_matches == max,
                self.stopped == stopped0,
                self.offset == old_offset,
                limit > 0 ==> limit + overlap == clen,
                clen == combined@.len(),
                overlap + 1 == pat_len,
                pat_len == len,
                len == self.pattern@.len(),
                pat == self.pattern@,
                len >= 1,
                ci == self.case_insensitive,
                total == self.total_size,
                pl == self.page_length,
                bs == self.block_size,
                self.page_length <= u32::MAX,
                self.block_size <= u32::MAX,
                combined@ == self.seen@.subrange(start as int, new_offset as int),
                self.seen@ == old_seen + chunk@,
                new_offset == self.seen@.len(),
                start + clen == new_offset,
                old_offset == old_seen.len(),
                old_offset < total,
                (old_offset as int) % (SEARCH_CHUNK as int) == 0,
                new_offset == min_of(old_offset + SEARCH_CHUNK, total),
                start == old_offset - tail_len,
                len <= SEARCH_CHUNK + 1 ==> tail_len == if old_offset == 0 { 0 } else { len - 1 },
                len > SEARCH_CHUNK + 1 ==> tail_len == 0,
                !hit ==> (self.results@.len() < self.max_matches || self.results@.len() == 0),
                len > SEARCH_CHUNK + 1 ==> self.results@ == old_results,
                max == 0 ==> self.results@.len() <= 1,
                hit ==> self.results@.len() >= self.max_matches && self.results@.len() >= 1,
                hit ==> self.results@.len() <= self.max_matches || self.results@.len() == 1,
                old_results.len() <= self.results@.len(),
                self.results@.subrange(0, old_results.len() as int) == old_results,
                old_offset > 0 ==> old_results.len() < self.max_matches,
                len <= SEARCH_CHUNK + 1 ==> positions(self.results@) == match_list(
                    self.seen@,
                    pat,
                    ci,
                    self.examined@,
                ),
                len <= SEARCH_CHUNK + 1 && !hit ==> self.examined@ == start + i,
                len <= SEARCH_CHUNK + 1 && hit ==> start <= self.examined@ <= start + limit,
                len <= SEARCH_CHUNK + 1 ==> covered_positions(old_offset as int, len) == start,
                forall|k: int| #![trigger self.results@[k]] 0 <= k < self.results@.len() ==> {
                    &&& result_ok(self.results@[k], k, self.seen@, len, pl, bs, total)
                    &&& preview_end(self.results@[k].byte_offset as int, len, total) <= new_offset
                    &&& self.results@[k].byte_offset as int + len <= new_offset
                    &&& self.results@[k].byte_offset < start + i + if hit { 1int } else { 0int }
                },
            ensures
                hit || i == limit,
            decreases limit - i,
        {
            if window_matches(&combined, i, &self.pattern, ci) {
                let p: u64 = start + i as u64;
                proof {
                    assert(len <= SEARCH_CHUNK + 1) by {
                        if len > SEARCH_CHUNK + 1 {
                            assert(clen <= SEARCH_CHUNK);
                        }
                    }
                    assert(matches_at(self.seen@, pat, ci, p as int)) by {
                        assert forall|k: int| 0 <= k < pat.len() implies #[trigger] byte_matches(
                            self.seen@[p + k],
                            pat[k],
                            ci,
                        ) by {
                            assert(byte_matches(combined@[i + k], pat[k], ci));
                        }
                    }
                }
                let n = self.results.len();
                let dup = n > 0 && self.results[n - 1].byte_offset == p;
                if !dup {
                    let plen_want: usize = if pat_len > 16 { pat_len } else { 16 };
                    let plen: usize = if plen_want <= clen - i { plen_want } else { clen - i };
                    let snippet = copy_range(&combined, i, i + plen);
                    proof {
                        lemma_chunk_end(p as int, len, old_offset as int, new_offset as int, total);
                        assert(snippet@ =~= self.seen@.subrange(p as int, preview_end(p as int, len, total)));
                    }
                    let r = result_for(p, n + 1, snippet.as_slice(), self.page_length, self.block_size);
                    let ghost before = self.results@;
                    self.results.push(r);
                    proof {
                        self.examined = Ghost(p + 1);
                        assert(self.results@.subrange(0, old_results.len() as int) =~= before.subrange(
                            0,
                            old_results.len() as int,
                        ));
                        assert(positions(self.results@) =~= positions(before).push(p as int));
                        assert forall|k: int| #![trigger self.results@[k]] 0 <= k < self.results@.len() implies {
                            &&& result_ok(self.results@[k], k, self.seen@, len, pl, bs, total)
                            &&& preview_end(self.results@[k].byte_offset as int, len, total) <= new_offset
                            &&& self.results@[k].byte_offset as int + len <= new_offset
                            &&& self.results@[k].byte_offset < start + i + 1
                        } by {
                            if k < before.len() {
                                assert(self.results@[k] == before[k]);
                            }
                        }
                    }
                    if self.results.len() >= self.max_matches {
                        hit = true;
                        break;
                    }
                } else {
                    proof {
                        assert(self.results@[n - 1] == self.results@[n - 1]);
                    }
                }
            } else {
                proof {
                    if len <= SEARCH_CHUNK + 1 {
                        let p = start + i;
                        if matches_at(self.seen@, pat, ci, p) {
                            assert forall|k: int| 0 <= k < pat.len() implies #[trigger] byte_matches(
                                combined@[i + k],
                                pat[k],
                                ci,
                            ) by {
                                assert(byte_matches(self.seen@[p + k], pat[k], ci));
                            }
                        }
                    }
                }
            }
            proof {
                if len <= SEARCH_CHUNK + 1 && !hit {
                    self.examined = Ghost(start + i + 1);
                }
            }
            i = i + 1;
        }
        if hit || self.results.len() >= self.max_matches {
            self.stopped = true;
        }
        if overlap > 0 && clen >= overlap {
            self.prev_tail = copy_range(&combined, clen - overlap, clen);
        } else {
            self.prev_tail = Vec::new();
        }
        self.offset = new_offset;
        proof {
            assert(self.prev_tail@ =~= self.seen@.subrange(new_offset - self.prev_tail@.len(), new_offset as int));
            let rs = self.results@;
            let off = self.offset as int;
            assert(len >= 1);
            assert(self.seen@.len() == off);
            assert(off <= total);
            assert(off % (SEARCH_CHUNK as int) == 0 || off == total);
            assert(self.prev_tail@.len() <= off);
            assert(self.stopped && self.max_matches == 0 ==> off == min_of(SEARCH_CHUNK as int, total));
            assert(!self.stopped && off > 0 ==> rs.len() < self.max_matches);
            assert(len > SEARCH_CHUNK + 1 ==> rs.len() == 0 && self.prev_tail@.len() == 0);
            assert(len <= SEARCH_CHUNK + 1 ==> (off < total ==> self.prev_tail@.len() == if off == 0 { 0 } else { len - 1 }));
            assert(len <= SEARCH_CHUNK + 1 ==> 0 <= self.examined@ <= covered_positions(off, len));
            assert(len <= SEARCH_CHUNK + 1 ==> positions(rs) == match_list(self.seen@, self.pattern@, ci, self.examined@));
            assert(len <= SEARCH_CHUNK + 1 ==> (!self.stopped ==> self.examined@ == covered_positions(off, len)));
            assert(len <= SEARCH_CHUNK + 1 ==> (self.stopped && self.max_matches >= 1 ==> rs.len() == self.max_matches));
            assert(len <= SEARCH_CHUNK + 1 ==> (self.stopped && self.max_matches == 0 ==> rs.len() == 1 || self.examined@ == covered_positions(off, len)));
        }
    }
}

impl SearchEngine {
    /// Once the scan is over (stopped early, or every byte read), the results
    /// are the reported matches of the bytes read, in order, each with its
    /// fields.
    pub proof fn lemma_finished_results(&self, data: Seq<u8>)
        requires
            self.wf(),
            self.is_stopped() || self.seen().len() >= self.total(),
            data.len() == self.total(),
            data.subrange(0, self.seen().len() as int) == self.seen(),
        ensures
            positions(self.found()) == reported_positions(data, self.pattern_bytes(), self.ignores_case(), self.max() as int),
            forall|k: int| #![trigger self.found()[k]] 0 <= k < self.found().len() ==> result_ok(
                self.found()[k],
                k,
                data,
                self.pattern_bytes().len() as int,
                self.pl() as int,
                self.bs() as int,
                self.total() as int,
            ),
    {
        let len = self.pattern@.len() as int;
        let seen = self.seen@;
        let off = self.offset as int;
        let total = self.total_size as int;
        let rs = self.results@;
        let ci = self.case_insensitive;
        let max = self.max_matches as int;
        let pat = self.pattern@;
        assert forall|k: int| #![trigger self.found()[k]] 0 <= k < rs.len() implies result_ok(
            rs[k],
            k,
            data,
            len,
            self.page_length as int,
            self.block_size as int,
            total,
        ) by {
            let q = rs[k].byte_offset as int;
            assert(data.subrange(q, preview_end(q, len, total)) =~= seen.subrange(q, preview_end(q, len, total)));
        }
        if len <= SEARCH_CHUNK + 1 {
            let e = self.examined@;
            lemma_match_list_prefix(seen, data, pat, ci, e);
            let covered = if max == 0 { min_of(SEARCH_CHUNK as int, total) } else { total };
            let cp = covered_positions(covered, len);
            let all = match_list(data, pat, ci, cp);
            if !self.stopped {
                assert(off == total);
                assert(positions(rs).len() == rs.len());
                if total > 0 {
                    assert(max >= 1);
                }
                assert(all.take(all.len() as int) =~= all);
            } else if max >= 1 {
                assert(off <= total);
                lemma_match_list_mono(data, pat, ci, e, cp);
                assert(positions(rs).len() == rs.len());
            } else {
                assert(off == covered);
                lemma_match_list_prefix(seen, data, pat, ci, cp);
                lemma_match_list_mono(data, pat, ci, e, cp);
                assert(positions(rs).len() == rs.len());
                if rs.len() != 1 {
                    assert(all.take(min_of(1, all.len() as int)) =~= all);
                }
            }
        } else {
            assert(positions(rs) =~= Seq::<int>::empty());
        }
    }
}

/// Searches a dump held in memory, window by window, exactly as a scan of
/// a provider does: the reported matches, in order, each with its block,
/// page, offset within the page and previews.
pub fn search_bytes(data: &[u8], options: &SearchOptions, page_length: u32, block_size: u32) -> (res: Result<
    Vec<SearchResult>,
    String,
>)
    requires
        pattern_ok(*options),
    ensures
        match spec_parse_pattern(*options) {
            Err(m) => res matches Err(e) && e@ == m,
            Ok(pat) => res matches Ok(rs) && positions(rs@) == reported_positions(
                data@,
                pat,
                options.mode == SearchMode::Ascii && !options.case_sensitive,
                options.max_matches as int,
            ) && forall|k: int| #![trigger rs@[k]] 0 <= k < rs@.len() ==> result_ok(
                rs@[k],
                k,
                data@,
                pat.len() as int,
                page_length as int,
                block_size as int,
                data@.len() as int,
            ),
        },
{
    let dlen = data.len();
    let total = dlen as u64;
    let mut engine = match SearchEngine::new(options, total, page_length, block_size) {
        Ok(e) => e,
        Err(m) => return Err(m),
    };
    loop
        invariant
            engine.wf(),
            engine.total() == data@.len(),
            total == data@.len(),
            dlen == data@.len(),
            engine.seen() == data@.subrange(0, engine.seen().len() as int),
            engine.pattern_bytes() == match spec_parse_pattern(*options) {
                Ok(p) => p,
                Err(_) => seq![],
            },
            spec_parse_pattern(*options) is Ok,
            engine.ignores_case() == (options.mode == SearchMode::Ascii && !options.case_sensitive),
            engine.max() == options.max_matches,
            engine.pl() == page_length,
            engine.bs() == block_size,
        ensures
            engine.wf(),
            engine.is_stopped() || engine.seen().len() >= engine.total(),
            engine.total() == data@.len(),
            engine.seen() == data@.subrange(0, engine.seen().len() as int),
            engine.pattern_bytes() == match spec_parse_pattern(*options) {
                Ok(p) => p,
                Err(_) => seq![],
            },
            engine.ignores_case() == (options.mode == SearchMode::Ascii && !options.case_sensitive),
            engine.max() == options.max_matches,
            engine.pl() == page_length,
            engine.bs() == block_size,
        decreases engine.total() - engine.seen().len(),
    {
        match engine.next_read() {
            None => break,
            Some((off, len)) => {
                let off_u = off as usize;
                let end = off_u + len as usize;
                let mut chunk: Vec<u8> = Vec::new();
                let mut k: usize = off_u;
                while k < end
                    invariant
                        off_u <= k <= end,
                        end <= data@.len(),
                        chunk@ == data@.subrange(off_u as int, k as int),
                    decreases end - k,
                {
                    chunk.push(data[k]);
                    k = k + 1;
                    assert(chunk@ =~= data@.subrange(off_u as int, k as int));
                }
                let ghost before = engine.seen();
                engine.feed(chunk.as_slice());
                assert(before + chunk@ =~= data@.subrange(0, end as int));
            },
        }
    }
    proof {
        assert(data@.subrange(0, engine.seen().len() as int) == engine.seen());
        engine.lemma_finished_results(data@);
    }
    Ok(engine.into_results())
}

fn scan_splits(cs: &[char]) -> (b: bool)
    ensures
        b == (hex_scan(cs@, 0) is Split),
{
    let mut k: usize = 0;
    while k < cs.len()
        invariant
            k <= cs@.len(),
            (hex_scan(cs@, 0) is Split) == (hex_scan(cs@, k as int) is Split),
        decreases cs@.len() - k,
    {
        let c = cs[k];
        if (c as u32) < 0x80 {
            if k + 1 < cs.len() && (cs[k + 1] as u32) < 0x80 {
                match pair_value(c, cs[k + 1]) {
                    Some(_) => {
                        k = k + 2;
                    },
                    None => {
                        return false;
                    },
                }
            } else {
                return true;
            }
        } else if (c as u32) < 0x800 {
            return false;
        } else {
            return true;
        }
    }
    false
}

/// Whether the hex digits of a pattern can be read two bytes at a time
/// without cutting a character in two (the condition `parse_pattern` needs).
pub fn pattern_is_readable(options: &SearchOptions) -> (b: bool)
    ensures
        b == pattern_ok(*options),
{
    match options.mode {
        SearchMode::Ascii => true,
        SearchMode::Hex => {
            let all = chars_of(options.pattern.as_str());
            let trimmed = trim_chars(all.as_slice());
            let h = hex_digit_chars(trimmed.as_slice());
            let hs = string_from_chars(h.as_slice());
            let hb = utf8_bytes(hs.as_str());
            if hb.len() % 2 != 0 {
                true
            } else {
                !scan_splits(h.as_slice())
            }
        },
    }
}

} // verus!
