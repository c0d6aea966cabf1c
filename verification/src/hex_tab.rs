//! Page-by-page hex viewer logic: `.case` page-structure parsing, segment
//! lookup, navigation (keys, wheel, go-to input, search matches) and the
//! conversions between linear offsets and NAND coordinates.

use vstd::prelude::*;
use crate::search::SearchResult;
use crate::text::{
    chars_of, string_from_chars, spec_trim, trim_chars, find_from, find_chars, slice_chars,
    eq_ignore_ascii_case, chars_eq_ignore_ascii_case, parse_unsigned, parse_unsigned_chars, parse_hex_unsigned,
    parse_hex_chars, padded_hex, push_padded_hex, is_digit,
};
use crate::types::FileMetadata;

verus! {

/// Segment kind in a NAND page structure
#[derive(Debug, Clone, Copy, PartialEq, Eq, Structural)]
pub enum PageSegmentKind {
    Data,
    Ecc,
    SpareArea,
    Other,
}

/// A parsed record from a .case page structure definition
#[derive(Debug, Clone, PartialEq, Eq)]
pub struct PageStructureRecord {
    pub name: String,
    pub start: u64,
    pub stop: u64,
    pub kind: PageSegmentKind,
}

/// A record as plain values: name, start, stop and kind.
pub type RecordView = (Seq<char>, u64, u64, PageSegmentKind);

impl PageStructureRecord {
    pub open spec fn view(&self) -> RecordView {
        (self.name@, self.start, self.stop, self.kind)
    }
}

/// The views of a list of records.
pub open spec fn record_views(rs: Seq<PageStructureRecord>) -> Seq<RecordView> {
    rs.map_values(|r: PageStructureRecord| r@)
}

/// The value of attribute `key` (which ends in `="`) in a line: the text from
/// the first occurrence of the key up to the next `"`.
pub open spec fn attr_value(line: Seq<char>, key: Seq<char>) -> Option<Seq<char>> {
    match find_from(line, key, 0) {
        Some(i) => {
            let rest = line.subrange(i + key.len(), line.len() as int);
            match find_from(rest, seq!['"'], 0) {
                Some(j) => Some(rest.subrange(0, j)),
                None => None,
            }
        },
        None => None,
    }
}

/// A decimal address, 0 when it does not parse.
pub open spec fn address_or_zero(s: Seq<char>) -> u64 {
    match parse_unsigned(s, u64::MAX as int) {
        Some(v) => v as u64,
        None => 0,
    }
}

/// Kind of a segment name (ASCII case ignored): `Data area`/`DATA` are data,
/// `ECC` is ECC, `SA`/`SPARE`/`OOB` are spare area, anything else other.
pub open spec fn kind_of_name(name: Seq<char>) -> PageSegmentKind {
    if eq_ignore_ascii_case(name, "Data area"@) || eq_ignore_ascii_case(name, "DATA"@) {
        PageSegmentKind::Data
    } else if eq_ignore_ascii_case(name, "ECC"@) {
        PageSegmentKind::Ecc
    } else if eq_ignore_ascii_case(name, "SA"@) || eq_ignore_ascii_case(name, "SPARE"@) || eq_ignore_ascii_case(
        name,
        "OOB"@,
    ) {
        PageSegmentKind::SpareArea
    } else {
        PageSegmentKind::Other
    }
}

/// The record a line of a `.case` file defines: a trimmed line starting with
/// `<Record ` that names a structure other than `Page` and gives its start and
/// stop addresses.
pub open spec fn parse_record_line(raw: Seq<char>) -> Option<RecordView> {
    let t = spec_trim(raw);
    if !(t.len() >= 8 && t.subrange(0, 8) == "<Record "@) {
        None
    } else {
        match attr_value(t, "StructureDefinitionName=\""@) {
            None => None,
            Some(name) => if eq_ignore_ascii_case(name, "Page"@) {
                None
            } else {
                match (attr_value(t, "StartAddress=\""@), attr_value(t, "StopAddress=\""@)) {
                    (Some(a), Some(b)) => Some((name, address_or_zero(a), address_or_zero(b), kind_of_name(name))),
                    _ => None,
                }
            },
        }
    }
}

/// The lines of a text (separated by `\n`; the text after the last one is
/// the last line).
pub open spec fn text_lines(s: Seq<char>) -> Seq<Seq<char>>
    decreases s.len(),
{
    if s.len() == 0 {
        seq![seq![]]
    } else {
        let prev = text_lines(s.drop_last());
        if s.last() == '\n' {
            prev.push(seq![])
        } else {
            prev.update(prev.len() - 1, prev.last().push(s.last()))
        }
    }
}

/// The records the lines define, in order.
pub open spec fn records_of_lines(lines: Seq<Seq<char>>) -> Seq<RecordView>
    decreases lines.len(),
{
    if lines.len() == 0 {
        seq![]
    } else {
        let prev = records_of_lines(lines.drop_last());
        match parse_record_line(lines.last()) {
            Some(r) => prev.push(r),
            None => prev,
        }
    }
}

/// Position at which a record with start `key` goes into a list sorted by
/// start so that equal starts keep their order: after every start `<= key`.
pub open spec fn insert_position(s: Seq<RecordView>, key: u64) -> int
    decreases s.len(),
{
    if s.len() == 0 {
        0
    } else if s.last().1 <= key {
        s.len() as int
    } else {
        insert_position(s.drop_last(), key)
    }
}

/// Records stably sorted by start address.
pub open spec fn sort_by_start(rs: Seq<RecordView>) -> Seq<RecordView>
    decreases rs.len(),
{
    if rs.len() == 0 {
        seq![]
    } else {
        let sorted = sort_by_start(rs.drop_last());
        sorted.insert(insert_position(sorted, rs.last().1), rs.last())
    }
}

/// Whether records are in non-decreasing start order.
pub open spec fn sorted_by_start(rs: Seq<RecordView>) -> bool {
    forall|i: int, j: int| 0 <= i < j < rs.len() ==> rs[i].1 <= rs[j].1
}

/// The page-structure records of a `.case` file, by start address.
pub open spec fn spec_parse_case_file(content: Seq<char>) -> Seq<RecordView> {
    sort_by_start(records_of_lines(text_lines(content)))
}

proof fn lemma_insert_position(s: Seq<RecordView>, key: u64)
    requires
        sorted_by_start(s),
    ensures
        0 <= insert_position(s, key) <= s.len(),
        forall|i: int| 0 <= i < insert_position(s, key) ==> s[i].1 <= key,
        forall|i: int| insert_position(s, key) <= i < s.len() ==> s[i].1 > key,
    decreases s.len(),
{
    if s.len() > 0 {
        let d = s.drop_last();
        assert(sorted_by_start(d));
        if s.last().1 > key {
            lemma_insert_position(d, key);
            assert forall|i: int| insert_position(s, key) <= i < s.len() implies s[i].1 > key by {
                if i < s.len() - 1 {
                    assert(s[i] == d[i]);
                }
            }
            assert forall|i: int| 0 <= i < insert_position(s, key) implies s[i].1 <= key by {
                assert(s[i] == d[i]);
            }
        } else {
            assert forall|i: int| 0 <= i < insert_position(s, key) implies s[i].1 <= key by {
                if i < s.len() - 1 {
                    assert(s[i].1 <= s[s.len() - 1].1);
                }
            }
        }
    }
}

/// Sorting by start gives records in start order.
pub proof fn lemma_sort_sorted(rs: Seq<RecordView>)
    ensures
        sorted_by_start(sort_by_start(rs)),
        sort_by_start(rs).len() == rs.len(),
    decreases rs.len(),
{
    if rs.len() > 0 {
        lemma_sort_sorted(rs.drop_last());
        let sorted = sort_by_start(rs.drop_last());
        let key = rs.last().1;
        lemma_insert_position(sorted, key);
        let p = insert_position(sorted, key);
        let r = sorted.insert(p, rs.last());
        assert forall|i: int, j: int| 0 <= i < j < r.len() implies r[i].1 <= r[j].1 by {
            if j < p {
            } else if j == p {
            } else if i < p {
            } else if i == p {
            } else {
            }
        }
    }
}

fn kind_for_name(name: &[char]) -> (k: PageSegmentKind)
    ensures
        k == kind_of_name(name@),
{
    if chars_eq_ignore_ascii_case(name, "Data area") || chars_eq_ignore_ascii_case(name, "DATA") {
        PageSegmentKind::Data
    } else if chars_eq_ignore_ascii_case(name, "ECC") {
        PageSegmentKind::Ecc
    } else if chars_eq_ignore_ascii_case(name, "SA") || chars_eq_ignore_ascii_case(name, "SPARE")
        || chars_eq_ignore_ascii_case(name, "OOB") {
        PageSegmentKind::SpareArea
    } else {
        PageSegmentKind::Other
    }
}

fn attribute(line: &[char], key: &str) -> (r: Option<Vec<char>>)
    ensures
        match attr_value(line@, key@) {
            Some(v) => r matches Some(x) && x@ == v,
            None => r is None,
        },
{
    let k = chars_of(key);
    let line_len = line.len();
    match find_chars(line, k.as_slice(), 0) {
        Some(i) => {
            proof {
                crate::text::lemma_find_from_bounds(line@, k@, 0);
            }
            assert(i + k@.len() <= line_len);
            let rest = slice_chars(line, i + k.len(), line.len());
            let mut quote: Vec<char> = Vec::new();
            quote.push('"');
            assert(quote@ =~= seq!['"']);
            proof {
                crate::text::lemma_find_from_bounds(rest@, quote@, 0);
            }
            match find_chars(rest.as_slice(), quote.as_slice(), 0) {
                Some(j) => Some(slice_chars(rest.as_slice(), 0, j)),
                None => None,
            }
        },
        None => None,
    }
}

fn address(s: &[char]) -> (v: u64)
    ensures
        v == address_or_zero(s@),
{
    match parse_unsigned_chars(s, u64::MAX) {
        Some(v) => v,
        None => 0,
    }
}

fn parse_line(raw: &[char]) -> (r: Option<PageStructureRecord>)
    ensures
        match parse_record_line(raw@) {
            Some(v) => r matches Some(x) && x@ == v,
            None => r is None,
        },
{
    let t = trim_chars(raw);
    if !crate::text::has_prefix(t.as_slice(), "<Record ") {
        proof {
            reveal_strlit("<Record ");
        }
        return None;
    }
    proof {
        reveal_strlit("<Record ");
    }
    let name = match attribute(t.as_slice(), "StructureDefinitionName=\"") {
        Some(n) => n,
        None => return None,
    };
    if chars_eq_ignore_ascii_case(name.as_slice(), "Page") {
        return None;
    }
    let a = match attribute(t.as_slice(), "StartAddress=\"") {
        Some(a) => a,
        None => return None,
    };
    let b = match attribute(t.as_slice(), "StopAddress=\"") {
        Some(b) => b,
        None => return None,
    };
    let kind = kind_for_name(name.as_slice());
    Some(PageStructureRecord {
        name: string_from_chars(name.as_slice()),
        start: address(a.as_slice()),
        stop: address(b.as_slice()),
        kind,
    })
}

fn insert_by_start(v: &mut Vec<PageStructureRecord>, r: PageStructureRecord)
    ensures
        record_views(final(v)@) == record_views(old(v)@).insert(
            insert_position(record_views(old(v)@), r.start),
            r@,
        ),
{
    let ghost s = record_views(v@);
    let mut p: usize = v.len();
    assert(s.subrange(0, p as int) =~= s);
    while p > 0 && v[p - 1].start > r.start
        invariant
            p <= v@.len(),
            s == record_views(v@),
            insert_position(s, r.start) == insert_position(s.subrange(0, p as int), r.start),
        decreases p,
    {
        let ghost sub = s.subrange(0, p as int);
        assert(sub.drop_last() =~= s.subrange(0, p - 1));
        p = p - 1;
    }
    proof {
        let sub = s.subrange(0, p as int);
        if p > 0 {
            assert(sub.last().1 <= r.start);
        }
    }
    let ghost rv = r@;
    v.insert(p, r);
    assert(record_views(v@) =~= s.insert(p as int, rv));
}

/// Parse a .case file content to extract page structure records: one record
/// per `<Record ...>` line (the whole-`Page` record excepted), stably sorted
/// by start address.
pub fn parse_case_file(content: &str) -> (records: Vec<PageStructureRecord>)
    ensures
        record_views(records@) == spec_parse_case_file(content@),
        sorted_by_start(record_views(records@)),
{
    let cs = chars_of(content);
    let n = cs.len();
    let mut parsed: Vec<PageStructureRecord> = Vec::new();
    let mut line: Vec<char> = Vec::new();
    let mut i: usize = 0;
    while i < n
        invariant
            i <= n,
            n == cs@.len(),
            cs@ == content@,
            text_lines(cs@.subrange(0, i as int)).len() >= 1,
            line@ == text_lines(cs@.subrange(0, i as int)).last(),
            record_views(parsed@) == sort_by_start(
                records_of_lines(text_lines(cs@.subrange(0, i as int)).drop_last()),
            ),
        decreases n - i,
    {
        let c = cs[i];
        let ghost pre = cs@.subrange(0, i as int);
        let ghost next = cs@.subrange(0, i + 1);
        assert(next.drop_last() =~= pre);
        if c == '\n' {
            let ghost lines = text_lines(pre);
            let ghost prev = records_of_lines(lines.drop_last());
            assert(lines.drop_last().push(lines.last()) =~= lines);
            match parse_line(line.as_slice()) {
                Some(r) => {
                    let ghost rv = r@;
                    insert_by_start(&mut parsed, r);
                    assert(records_of_lines(lines) == prev.push(rv));
                    assert(prev.push(rv).drop_last() =~= prev);
                },
                None => {
                    assert(records_of_lines(lines) == prev);
                },
            }
            proof {
                assert(text_lines(next).drop_last() =~= lines);
            }
            line = Vec::new();
        } else {
            line.push(c);
            proof {
                let lines = text_lines(pre);
                assert(text_lines(next).drop_last() =~= lines.drop_last());
            }
        }
        i = i + 1;
    }
    let ghost all = text_lines(cs@.subrange(0, n as int));
    let ghost prev = records_of_lines(all.drop_last());
    assert(all.drop_last().push(all.last()) =~= all);
    match parse_line(line.as_slice()) {
        Some(r) => {
            let ghost rv = r@;
            insert_by_start(&mut parsed, r);
            assert(records_of_lines(all) == prev.push(rv));
            assert(prev.push(rv).drop_last() =~= prev);
        },
        None => {
            assert(records_of_lines(all) == prev);
        },
    }
    proof {
        assert(cs@.subrange(0, n as int) =~= cs@);
        lemma_sort_sorted(records_of_lines(all));
    }
    parsed
}

/// Find the segment covering a given byte column: the first record whose
/// inclusive range holds it.
pub open spec fn segment_index_at(col: u64, rs: Seq<RecordView>) -> Option<int>
    decreases rs.len(),
{
    if rs.len() == 0 {
        None
    } else {
        match segment_index_at(col, rs.drop_last()) {
            Some(i) => Some(i),
            None => if rs.last().1 <= col && col <= rs.last().2 {
                Some(rs.len() - 1)
            } else {
                None
            },
        }
    }
}

/// The case-file names tried next to a dump, in order: the dump path with its
/// extension replaced by `case`, the path with `.case` appended,
/// `download.case` and `geo512.case` in the dump's directory (when it has a
/// non-empty one), then `download.case` and `geo512.case` in the working
/// directory.
pub open spec fn case_file_candidates_spec(dump_path: Seq<char>) -> Seq<Seq<char>> {
    let first = seq![path_with_case_extension(dump_path), dump_path + ".case"@];
    let near = match path_parent(dump_path) {
        Some(d) => if d.len() > 0 {
            seq![crate::fuse_node::path_join(d, "download.case"@), crate::fuse_node::path_join(d, "geo512.case"@)]
        } else {
            seq![]
        },
        None => seq![],
    };
    first + near + seq!["download.case"@, "geo512.case"@]
}

/// What `Path::with_extension(p, "case")` gives for the path `p`.
pub uninterp spec fn path_with_case_extension(p: Seq<char>) -> Seq<char>;

/// What `Path::parent` gives for the path `p`.
pub uninterp spec fn path_parent(p: Seq<char>) -> Option<Seq<char>>;

/// Calls `Path::with_extension(path, "case")`, which replaces the file
/// name's extension by `case` (or adds one); the result is left to the name
/// `path_with_case_extension`.
#[verifier::external_body]
fn with_case_extension(path: &str) -> (r: String)
    ensures
        r@ == path_with_case_extension(path@),
{
    std::path::Path::new(path).with_extension("case").to_string_lossy().into_owned()
}

/// Calls `Path::parent`, the path without its last component (`None` for a
/// root or an empty path); the result is left to the name `path_parent`.
#[verifier::external_body]
fn parent_of(path: &str) -> (r: Option<String>)
    ensures
        match r {
            Some(s) => path_parent(path@) == Some(s@),
            None => path_parent(path@) is None,
        },
{
    match std::path::Path::new(path).parent() {
        Some(p) => Some(p.to_string_lossy().into_owned()),
        None => None,
    }
}

impl PageStructureRecord {
    /// Index of the segment covering byte column `col`, if any.
    pub fn find_segment_index(col: u64, records: &[PageStructureRecord]) -> (r: Option<usize>)
        ensures
            match segment_index_at(col, record_views(records@)) {
                Some(i) => r == Some(i as usize),
                None => r is None,
            },
    {
        let mut i: usize = 0;
        while i < records.len()
            invariant
                i <= records@.len(),
                segment_index_at(col, record_views(records@).subrange(0, i as int)) is None,
            decreases records@.len() - i,
        {
            let ghost sub = record_views(records@).subrange(0, i + 1);
            assert(sub.drop_last() =~= record_views(records@).subrange(0, i as int));
            if col >= records[i].start && col <= records[i].stop {
                proof {
                    lemma_segment_index_prefix(col, record_views(records@), i + 1);
                }
                return Some(i);
            }
            i = i + 1;
        }
        assert(record_views(records@).subrange(0, i as int) =~= record_views(records@));
        None
    }
}

pub(crate) proof fn lemma_segment_index_bounds(col: u64, rs: Seq<RecordView>)
    ensures
        segment_index_at(col, rs) matches Some(i) ==> 0 <= i < rs.len(),
    decreases rs.len(),
{
    if rs.len() > 0 {
        lemma_segment_index_bounds(col, rs.drop_last());
    }
}

proof fn lemma_segment_index_prefix(col: u64, rs: Seq<RecordView>, k: int)
    requires
        0 <= k <= rs.len(),
        segment_index_at(col, rs.subrange(0, k)) is Some,
    ensures
        segment_index_at(col, rs) == segment_index_at(col, rs.subrange(0, k)),
    decreases rs.len() - k,
{
    if k < rs.len() {
        let next = rs.subrange(0, k + 1);
        assert(next.drop_last() =~= rs.subrange(0, k));
        lemma_segment_index_prefix(col, rs, k + 1);
    } else {
        assert(rs.subrange(0, k) =~= rs);
    }
}

/// The case-file paths to try for a dump, in order of preference.
pub fn case_file_candidates(dump_path: &str) -> (v: Vec<String>)
    ensures
        v@.map_values(|s: String| s@) == case_file_candidates_spec(dump_path@),
{
    let mut v: Vec<String> = Vec::new();
    v.push(with_case_extension(dump_path));
    let mut appended = chars_of(dump_path);
    crate::text::push_str(&mut appended, ".case");
    v.push(string_from_chars(appended.as_slice()));
    match parent_of(dump_path) {
        Some(d) => {
            let dc = chars_of(d.as_str());
            if dc.len() > 0 {
                let mut a = dc.clone();
                assert(a@ == dc@);
                crate::fuse_node::push_path_component(&mut a, chars_of("download.case").as_slice());
                v.push(string_from_chars(a.as_slice()));
                let mut b = chars_of(d.as_str());
                crate::fuse_node::push_path_component(&mut b, chars_of("geo512.case").as_slice());
                v.push(string_from_chars(b.as_slice()));
            }
        },
        None => {},
    }
    v.push(string_from_chars(chars_of("download.case").as_slice()));
    v.push(string_from_chars(chars_of("geo512.case").as_slice()));
    assert(v@.map_values(|s: String| s@) =~= case_file_candidates_spec(dump_path@));
    v
}

/// Display mode for Hex viewer
#[derive(Debug, Clone, Copy, PartialEq, Eq, Structural)]
pub enum HexDisplayMode {
    /// Both Hex bytes and ASCII representation
    HexAndAscii,
    /// Only Hex bytes (maximizes horizontal bytes)
    HexOnly,
    /// Only ASCII characters (maximum character density)
    AsciiOnly,
}

/// Display mode when an XOR node is active upstream
#[derive(Debug, Clone, Copy, PartialEq, Eq, Structural)]
pub enum HexDiffMode {
    /// Show active output bytes (XOR applied)
    XorOnly,
    /// Show raw input bytes before XOR
    RawOnly,
    /// Show active bytes with color-coded diff against raw bytes
    ColorDiff,
}

/// Placement of the miniature bit-level NAND viewer
#[derive(Debug, Clone, Copy, PartialEq, Eq, Structural)]
pub enum MiniNandPosition {
    Top,
    Side,
    Hidden,
}

/// Navigation state of the hex viewer (what the frame draws from).
pub struct HexTabState {
    /// Starting NAND page displayed at the top row
    pub current_page: u64,
    /// Byte column offset inside the page
    pub col_offset_in_page: u64,
    /// Requested jump target byte offset from outside (e.g. NAND viewer or search)
    pub pending_jump_offset: Option<u64>,
    /// Display format (Hex+ASCII, Hex Only, ASCII Only)
    pub display_mode: HexDisplayMode,
    /// Diff mode for XOR comparison
    pub diff_mode: HexDiffMode,
    /// Position of mini bit-level NAND viewer
    pub mini_nand_position: MiniNandPosition,
    /// Text input buffer for "Go to address / page"
    pub goto_address_input: String,
    /// Error message for invalid address entry
    pub goto_error: Option<String>,
    /// Requested jump to NAND viewer: (block, page, offset_in_page)
    pub jump_to_nand: Option<(u64, u64, u64)>,
    /// Whether the vertical page scrollbar is being dragged
    pub is_dragging_scrollbar: bool,
    /// Label of the current scroll velocity
    pub scroll_velocity_mode: String,
    /// Whether the horizontal page scrollbar is being dragged
    pub is_dragging_h_scrollbar: bool,
}

/// `a - b`, or 0 when `b > a`.
pub open spec fn sat_sub(a: int, b: int) -> int {
    if a >= b { a - b } else { 0 }
}

pub open spec fn min_int(a: int, b: int) -> int {
    if a <= b { a } else { b }
}

/// Page and column the view shows for a linear offset: the offset's page
/// (at most the last page) and its column within the page.
pub open spec fn spec_page_of(offset: u64, m: FileMetadata) -> int {
    let pl = if m.page_length >= 1 { m.page_length as int } else { 1 };
    let tp = if m.total_pages >= 1 { m.total_pages as int } else { 1 };
    min_int(offset as int / pl, tp - 1)
}

pub open spec fn spec_col_of(offset: u64, m: FileMetadata) -> int {
    let pl = if m.page_length >= 1 { m.page_length as int } else { 1 };
    offset as int % pl
}

/// The go-to text shown for an offset: `0x` and at least eight upper-case
/// hex digits.
pub open spec fn goto_text(offset: u64) -> Seq<char> {
    "0x"@ + padded_hex(offset as nat, 8)
}

/// What a go-to input asks for.
pub enum GotoTarget {
    Page(nat),
    Offset(nat),
    Invalid,
}

/// Reading of the go-to input (trimmed): `p<num>`/`P<num>` is a page number;
/// otherwise an offset given as `0x<hex>`, `$<hex>`, all-decimal digits, or
/// bare hex.
pub open spec fn goto_target(input: Seq<char>) -> GotoTarget {
    let t = spec_trim(input);
    let page = if t.len() > 0 && (t[0] == 'p' || t[0] == 'P') {
        parse_unsigned(spec_trim(t.subrange(1, t.len() as int)), u64::MAX as int)
    } else {
        None
    };
    match page {
        Some(p) => GotoTarget::Page(p),
        None => {
            let parsed = if t.len() >= 2 && t[0] == '0' && (t[1] == 'x' || t[1] == 'X') {
                parse_hex_unsigned(spec_trim(t.subrange(2, t.len() as int)), u64::MAX as int)
            } else if t.len() >= 1 && t[0] == '$' {
                parse_hex_unsigned(t.subrange(1, t.len() as int), u64::MAX as int)
            } else if crate::text::all_digits(t) {
                parse_unsigned(t, u64::MAX as int)
            } else {
                parse_hex_unsigned(t, u64::MAX as int)
            };
            match parsed {
                Some(v) => GotoTarget::Offset(v),
                None => GotoTarget::Invalid,
            }
        },
    }
}

/// The message shown for an unreadable go-to input.
pub open spec fn goto_error_text() -> Seq<char> {
    "Invalid input (use 0x..., dec, or p<num>)"@
}

/// Keys and wheel steps of one frame: arrows, page keys, Home/End with the
/// Ctrl modifier, and the wheel movement in whole pages (vertical, positive
/// is up) and whole columns (horizontal, positive is right).
#[derive(Debug, Clone, Copy, PartialEq, Eq, Structural)]
pub struct NavInput {
    pub up: bool,
    pub down: bool,
    pub left: bool,
    pub right: bool,
    pub page_up: bool,
    pub page_down: bool,
    pub home: bool,
    pub end: bool,
    pub ctrl: bool,
    pub wheel_pages: i64,
    pub wheel_cols: i64,
}

/// Geometry the navigation clamps to.
#[derive(Debug, Clone, Copy, PartialEq, Eq, Structural)]
pub struct NavBounds {
    pub total_pages: u64,
    pub block_size: u64,
    pub bytes_per_row: u64,
    pub page_length: u64,
    pub visible_pages: u64,
}

pub open spec fn last_page(b: NavBounds) -> int {
    sat_sub(b.total_pages as int, 1)
}

pub open spec fn max_col(b: NavBounds) -> int {
    sat_sub(b.page_length as int, b.bytes_per_row as int)
}

pub open spec fn half_row(b: NavBounds) -> int {
    if b.bytes_per_row / 2 >= 1 { (b.bytes_per_row / 2) as int } else { 1 }
}

/// Page after the arrow keys.
pub open spec fn nav_arrows_page(page: int, i: NavInput, b: NavBounds) -> int {
    if i.up {
        if i.ctrl { sat_sub(page, b.block_size as int) } else { sat_sub(page, 1) }
    } else if i.down {
        if i.ctrl { min_int(page + b.block_size, last_page(b)) } else { min_int(page + 1, last_page(b)) }
    } else {
        page
    }
}

/// Column after the arrow keys.
pub open spec fn nav_arrows_col(col: int, i: NavInput, b: NavBounds) -> int {
    if i.left {
        if i.ctrl { sat_sub(col, half_row(b)) } else { sat_sub(col, 1) }
    } else if i.right {
        if i.ctrl { min_int(col + half_row(b), max_col(b)) } else { min_int(col + 1, max_col(b)) }
    } else {
        col
    }
}

/// Page after the page keys.
pub open spec fn nav_pagekeys_page(page: int, i: NavInput, b: NavBounds) -> int {
    if i.page_up {
        if i.ctrl { sat_sub(page, b.block_size as int) } else { sat_sub(page, b.visible_pages as int) }
    } else if i.page_down {
        if i.ctrl {
            min_int(page + b.block_size, last_page(b))
        } else {
            min_int(page + b.visible_pages, last_page(b))
        }
    } else {
        page
    }
}

/// Page after Home/End.
pub open spec fn nav_home_page(page: int, i: NavInput, b: NavBounds) -> int {
    if i.home {
        if i.ctrl { 0 } else { page }
    } else if i.end {
        if i.ctrl { last_page(b) } else { page }
    } else {
        page
    }
}

/// Column after Home/End.
pub open spec fn nav_home_col(col: int, i: NavInput, b: NavBounds) -> int {
    if i.home {
        0
    } else if i.end {
        max_col(b)
    } else {
        col
    }
}

/// Page after the vertical wheel.
pub open spec fn nav_wheel_page(page: int, i: NavInput, b: NavBounds) -> int {
    if i.wheel_pages > 0 {
        sat_sub(page, i.wheel_pages as int)
    } else if i.wheel_pages < 0 {
        min_int(page - i.wheel_pages, last_page(b))
    } else {
        page
    }
}

/// Column after the horizontal wheel.
pub open spec fn nav_wheel_col(col: int, i: NavInput, b: NavBounds) -> int {
    if i.wheel_cols > 0 {
        min_int(col + i.wheel_cols, max_col(b))
    } else if i.wheel_cols < 0 {
        sat_sub(col, -i.wheel_cols)
    } else {
        col
    }
}

/// Page and column after one frame of input, in the order the keys are
/// handled: arrows, page keys, Home/End, then the wheel.
pub open spec fn nav_result(page: int, col: int, i: NavInput, b: NavBounds) -> (int, int) {
    let p1 = nav_arrows_page(page, i, b);
    let c1 = nav_arrows_col(col, i, b);
    let p2 = nav_pagekeys_page(p1, i, b);
    let p3 = nav_home_page(p2, i, b);
    let c3 = nav_home_col(c1, i, b);
    (nav_wheel_page(p3, i, b), nav_wheel_col(c3, i, b))
}

/// No step of the frame's arithmetic leaves 64 bits: each sum taken before
/// clamping fits, and the wheel steps can be negated.
pub open spec fn nav_ok(page: int, col: int, i: NavInput, b: NavBounds) -> bool {
    let p1 = nav_arrows_page(page, i, b);
    let c1 = nav_arrows_col(col, i, b);
    let p2 = nav_pagekeys_page(p1, i, b);
    let p3 = nav_home_page(p2, i, b);
    let c3 = nav_home_col(c1, i, b);
    &&& page + b.block_size + 1 <= u64::MAX
    &&& col + half_row(b) + 1 <= u64::MAX
    &&& p1 + b.block_size + b.visible_pages <= u64::MAX
    &&& i.wheel_pages > i64::MIN
    &&& i.wheel_cols > i64::MIN
    &&& p3 - i.wheel_pages <= u64::MAX
    &&& c3 + i.wheel_cols <= u64::MAX
}

impl HexTabState {
    /// The initial view: top-left of the dump, hex and ASCII, colored diff,
    /// miniature viewer on top, go-to text `0x00000000`.
    pub fn new() -> (s: HexTabState)
        ensures
            s.current_page == 0,
            s.col_offset_in_page == 0,
            s.pending_jump_offset is None,
            s.display_mode == HexDisplayMode::HexAndAscii,
            s.diff_mode == HexDiffMode::ColorDiff,
            s.mini_nand_position == MiniNandPosition::Top,
            s.goto_address_input@ == "0x00000000"@,
            s.goto_error is None,
            s.jump_to_nand is None,
            !s.is_dragging_scrollbar,
            s.scroll_velocity_mode@ == Seq::<char>::empty(),
            !s.is_dragging_h_scrollbar,
    {
        HexTabState {
            current_page: 0,
            col_offset_in_page: 0,
            pending_jump_offset: None,
            display_mode: HexDisplayMode::HexAndAscii,
            diff_mode: HexDiffMode::ColorDiff,
            mini_nand_position: MiniNandPosition::Top,
            goto_address_input: string_from_chars(chars_of("0x00000000").as_slice()),
            goto_error: None,
            jump_to_nand: None,
            is_dragging_scrollbar: false,
            scroll_velocity_mode: String::new(),
            is_dragging_h_scrollbar: false,
        }
    }

    /// Convert linear byte offset to current_page and col_offset_in_page
    pub fn jump_to_linear_offset(&mut self, offset: u64, meta: &FileMetadata)
        ensures
            final(self).current_page == spec_page_of(offset, *meta),
            final(self).col_offset_in_page == spec_col_of(offset, *meta),
            final(self).goto_address_input@ == goto_text(offset),
            final(self).pending_jump_offset == old(self).pending_jump_offset,
            final(self).goto_error == old(self).goto_error,
            final(self).jump_to_nand == old(self).jump_to_nand,
            final(self).display_mode == old(self).display_mode,
    {
        let pl: u64 = if meta.page_length as u64 >= 1 { meta.page_length as u64 } else { 1 };
        let total_pages: u64 = if meta.total_pages >= 1 { meta.total_pages } else { 1 };
        let by_page = offset / pl;
        let target_page = if by_page <= total_pages - 1 { by_page } else { total_pages - 1 };
        let target_col = offset % pl;
        self.current_page = target_page;
        self.col_offset_in_page = target_col;
        let mut text = chars_of("0x");
        push_padded_hex(&mut text, offset, 8);
        self.goto_address_input = string_from_chars(text.as_slice());
    }

    /// Calculate the current linear byte offset of the top-left byte
    pub fn current_linear_offset(&self, meta: &FileMetadata) -> (o: u64)
        requires
            self.current_page * meta.page_length + self.col_offset_in_page <= u64::MAX,
        ensures
            o == self.current_page * meta.page_length + self.col_offset_in_page,
    {
        proof {
            assert(self.current_page * meta.page_length >= 0) by (nonlinear_arith);
        }
        self.current_page * meta.page_length as u64 + self.col_offset_in_page
    }

    /// Find the segment covering a given byte column (helper for external callers)
    pub fn find_segment_at_column<'a>(col: u64, records: &'a [PageStructureRecord]) -> (r: Option<
        &'a PageStructureRecord,
    >)
        ensures
            match segment_index_at(col, record_views(records@)) {
                Some(i) => r matches Some(x) && *x == records@[i],
                None => r is None,
            },
    {
        match PageStructureRecord::find_segment_index(col, records) {
            Some(i) => {
                proof {
                    lemma_segment_index_bounds(col, record_views(records@));
                }
                Some(&records[i])
            },
            None => None,
        }
    }

    /// Convert linear byte offset to NAND block, page, and offset inside page
    pub fn offset_to_nand_coords(offset: u64, meta: &FileMetadata) -> (r: (u64, u64, u64))
        ensures
            r.0 == crate::search::block_of(offset as int, meta.page_length as int, meta.block_size as int),
            r.1 == crate::search::page_of(offset as int, meta.page_length as int, meta.block_size as int),
            r.2 == crate::search::offset_in_page_of(offset as int, meta.page_length as int, meta.block_size as int),
    {
        let pl = meta.page_length as u64;
        let bs = meta.block_size as u64;
        assert(pl * bs <= u32::MAX * u32::MAX) by (nonlinear_arith)
            requires
                pl <= u32::MAX,
                bs <= u32::MAX,
        ;
        let block_stride = pl * bs;
        assert(block_stride == bs * pl) by (nonlinear_arith)
            requires
                block_stride == pl * bs,
        ;
        let block = if block_stride > 0 { offset / block_stride } else { 0 };
        let offset_in_block = if block_stride > 0 { offset % block_stride } else { 0 };
        let page = if pl > 0 { offset_in_block / pl } else { 0 };
        let offset_in_page = if pl > 0 { offset_in_block % pl } else { 0 };
        (block, page, offset_in_page)
    }

    /// Convert NAND block, page, and offset to linear byte offset
    pub fn nand_coords_to_offset(block: u64, page: u64, offset_in_page: u64, meta: &FileMetadata) -> (o: u64)
        requires
            block * (meta.page_length * meta.block_size) + page * meta.page_length + offset_in_page <= u64::MAX,
        ensures
            o == block * (meta.page_length * meta.block_size) + page * meta.page_length + offset_in_page,
    {
        let pl = meta.page_length as u64;
        let bs = meta.block_size as u64;
        proof {
            assert(pl * bs <= u32::MAX * u32::MAX) by (nonlinear_arith)
                requires
                    pl <= u32::MAX,
                    bs <= u32::MAX,
            ;
            assert(block * (pl * bs) >= 0 && page * pl >= 0) by (nonlinear_arith);
        }
        let block_stride = pl * bs;
        block * block_stride + page * pl + offset_in_page
    }

    /// Handle goto address or page input: a page number moves to that page
    /// (at most the last), an offset jumps there, anything else sets the
    /// error message.
    pub fn handle_goto(&mut self, meta: &FileMetadata)
        ensures
            match goto_target(old(self).goto_address_input@) {
                GotoTarget::Page(p) => final(self).current_page == min_int(
                    p as int,
                    sat_sub(meta.total_pages as int, 1),
                ) && final(self).goto_error is None && final(self).col_offset_in_page == old(
                    self,
                ).col_offset_in_page && final(self).goto_address_input@ == old(self).goto_address_input@,
                GotoTarget::Offset(v) => final(self).goto_error is None && final(self).current_page
                    == spec_page_of(v as u64, *meta) && final(self).col_offset_in_page == spec_col_of(
                    v as u64,
                    *meta,
                ) && final(self).goto_address_input@ == goto_text(v as u64),
                GotoTarget::Invalid => final(self).goto_error matches Some(e) && e@ == goto_error_text()
                    && final(self).current_page == old(self).current_page && final(self).col_offset_in_page
                    == old(self).col_offset_in_page,
            },
    {
        let all = chars_of(self.goto_address_input.as_str());
        let t = trim_chars(all.as_slice());
        let n = t.len();
        if n > 0 && (t[0] == 'p' || t[0] == 'P') {
            let rest = slice_chars(t.as_slice(), 1, n);
            let rt = trim_chars(rest.as_slice());
            match parse_unsigned_chars(rt.as_slice(), u64::MAX) {
                Some(p) => {
                    let last = if meta.total_pages >= 1 { meta.total_pages - 1 } else { 0 };
                    self.current_page = if p <= last { p } else { last };
                    self.goto_error = None;
                    return;
                },
                None => {},
            }
        }
        let parsed = if n >= 2 && t[0] == '0' && (t[1] == 'x' || t[1] == 'X') {
            let rest = slice_chars(t.as_slice(), 2, n);
            let rt = trim_chars(rest.as_slice());
            parse_hex_chars(rt.as_slice(), u64::MAX)
        } else if n >= 1 && t[0] == '$' {
            let rest = slice_chars(t.as_slice(), 1, n);
            parse_hex_chars(rest.as_slice(), u64::MAX)
        } else if all_decimal(t.as_slice()) {
            parse_unsigned_chars(t.as_slice(), u64::MAX)
        } else {
            parse_hex_chars(t.as_slice(), u64::MAX)
        };
        match parsed {
            Some(offset) => {
                self.goto_error = None;
                self.jump_to_linear_offset(offset, meta);
            },
            None => {
                self.goto_error = Some(
                    string_from_chars(chars_of("Invalid input (use 0x..., dec, or p<num>)").as_slice()),
                );
            },
        }
    }

    #[verifier::loop_isolation(false)]
    /// Jump to the adjacent search match: forward to the first match after
    /// the view's top-left byte (wrapping to the first match), backward to the
    /// last match before it (wrapping to the last match).
    pub fn jump_to_search_match(&mut self, results: &[SearchResult], meta: &FileMetadata, forward: bool)
        requires
            old(self).current_page * meta.page_length + old(self).col_offset_in_page <= u64::MAX,
        ensures
            results@.len() == 0 ==> final(self).current_page == old(self).current_page
                && final(self).col_offset_in_page == old(self).col_offset_in_page,
            results@.len() > 0 ==> {
                let cur = old(self).current_page * meta.page_length + old(self).col_offset_in_page;
                let target = adjacent_match(results@, cur, forward);
                &&& final(self).current_page == spec_page_of(target, *meta)
                &&& final(self).col_offset_in_page == spec_col_of(target, *meta)
                &&& final(self).goto_address_input@ == goto_text(target)
            },
    {
        if results.len() == 0 {
            return;
        }
        let cur = self.current_linear_offset(meta);
        let n = results.len();
        if forward {
            let mut i: usize = 0;
            while i < n
                invariant
                    i <= n,
                    n == results@.len(),
                    first_after(results@, cur as int, 0) == first_after(results@, cur as int, i as int),
                decreases n - i,
            {
                if results[i].byte_offset > cur {
                    let target = results[i].byte_offset;
                    self.jump_to_linear_offset(target, meta);
                    return;
                }
                i = i + 1;
            }
            let target = results[0].byte_offset;
            self.jump_to_linear_offset(target, meta);
        } else {
            let mut i: usize = n;
            while i > 0
                invariant
                    i <= n,
                    n == results@.len(),
                    last_before(results@, cur as int, n as int) == last_before(results@, cur as int, i as int),
                decreases i,
            {
                if results[i - 1].byte_offset < cur {
                    let target = results[i - 1].byte_offset;
                    self.jump_to_linear_offset(target, meta);
                    return;
                }
                i = i - 1;
            }
            let target = results[n - 1].byte_offset;
            self.jump_to_linear_offset(target, meta);
        }
    }

    /// Scrubbing the page scrollbar by `delta` pages (fine and block drag
    /// modes): saturating in both directions, then at most the last page.
    pub fn scrub_pages(&mut self, delta: i64, total_pages: u64)
        requires
            delta > i64::MIN,
        ensures
            final(self).current_page == min_int(
                if delta > 0 {
                    min_int(old(self).current_page + delta, u64::MAX as int)
                } else {
                    sat_sub(old(self).current_page as int, -delta)
                },
                sat_sub(total_pages as int, 1),
            ),
    {
        let max_page = if total_pages >= 1 { total_pages - 1 } else { 0 };
        let new_page = if delta > 0 {
            let d = delta as u64;
            if self.current_page <= u64::MAX - d { self.current_page + d } else { u64::MAX }
        } else {
            sub_sat(self.current_page, (-delta) as u64)
        };
        self.current_page = min_u64(new_page, max_page);
    }

    /// The scrollbar's step buttons: one page (or one block with Ctrl) up,
    /// or down to at most the last page.
    pub fn step_page(&mut self, down: bool, ctrl: bool, block_size: u64, total_pages: u64)
        requires
            down ==> old(self).current_page + (if ctrl { block_size as int } else { 1 }) <= u64::MAX,
        ensures
            final(self).current_page == if down {
                min_int(old(self).current_page + if ctrl { block_size as int } else { 1 }, sat_sub(total_pages as int, 1))
            } else {
                sat_sub(old(self).current_page as int, if ctrl { block_size as int } else { 1 })
            },
    {
        let step = if ctrl { block_size } else { 1 };
        if down {
            let max_page = if total_pages >= 1 { total_pages - 1 } else { 0 };
            self.current_page = min_u64(self.current_page + step, max_page);
        } else {
            self.current_page = sub_sat(self.current_page, step);
        }
    }

    /// The column scrollbar's step buttons: 16 bytes left, or 16 bytes right
    /// to at most the last column at which a full row still fits.
    pub fn step_column(&mut self, right: bool, page_length: u64, bytes_per_row: u64)
        requires
            right ==> old(self).col_offset_in_page + 16 <= u64::MAX,
        ensures
            final(self).current_page == old(self).current_page,
            final(self).col_offset_in_page == if right {
                min_int(old(self).col_offset_in_page + 16, sat_sub(page_length as int, bytes_per_row as int))
            } else {
                sat_sub(old(self).col_offset_in_page as int, 16)
            },
    {
        if right {
            let max_col = sub_sat(page_length, bytes_per_row);
            self.col_offset_in_page = min_u64(self.col_offset_in_page + 16, max_col);
        } else {
            self.col_offset_in_page = sub_sat(self.col_offset_in_page, 16);
        }
    }

    /// Picking a segment in the structure menu: its first column, or the
    /// last column at which a full row still fits where that is smaller.
    pub fn select_segment(&mut self, record: &PageStructureRecord, page_length: u64, bytes_per_row: u64)
        ensures
            final(self).current_page == old(self).current_page,
            final(self).col_offset_in_page == min_int(
                record.start as int,
                sat_sub(page_length as int, bytes_per_row as int),
            ),
    {
        self.col_offset_in_page = min_u64(record.start, sub_sat(page_length, bytes_per_row));
    }

    /// "Show in NAND Viewer": asks for the block, page and offset in page of
    /// the top-left byte.
    pub fn show_in_nand_viewer(&mut self, meta: &FileMetadata)
        requires
            old(self).current_page * meta.page_length + old(self).col_offset_in_page <= u64::MAX,
        ensures
            ({
                let lin = old(self).current_page * meta.page_length + old(self).col_offset_in_page;
                let pl = meta.page_length as int;
                let bs = meta.block_size as int;
                final(self).jump_to_nand == Some((
                    crate::search::block_of(lin, pl, bs) as u64,
                    crate::search::page_of(lin, pl, bs) as u64,
                    crate::search::offset_in_page_of(lin, pl, bs) as u64,
                ))
            }),
            final(self).current_page == old(self).current_page,
            final(self).col_offset_in_page == old(self).col_offset_in_page,
    {
        let lin = self.current_linear_offset(meta);
        let coords = HexTabState::offset_to_nand_coords(lin, meta);
        self.jump_to_nand = Some(coords);
    }

    /// A click on the miniature bit viewer at row `row` and byte `byte` of
    /// what it shows: moves the view by that many pages and columns, to at
    /// most the last page and the last column at which a full row fits.
    pub fn mini_viewer_click(&mut self, row: u64, byte: u64, total_pages: u64, page_length: u64, bytes_per_row: u64)
        requires
            old(self).current_page + row <= u64::MAX,
            old(self).col_offset_in_page + byte <= u64::MAX,
        ensures
            final(self).current_page == min_int(old(self).current_page + row, sat_sub(total_pages as int, 1)),
            final(self).col_offset_in_page == min_int(
                old(self).col_offset_in_page + byte,
                sat_sub(page_length as int, bytes_per_row as int),
            ),
    {
        self.current_page = min_u64(self.current_page + row, sub_sat(total_pages, 1));
        self.col_offset_in_page = min_u64(self.col_offset_in_page + byte, sub_sat(page_length, bytes_per_row));
    }

    /// The start of a frame: a pending jump is carried out; without an XOR
    /// stage the view falls back to the XOR output; the page is brought to at
    /// most the last one and the column to at most the last at which a full
    /// row fits (a page count or page length of 0 counting as 1).
    pub fn prepare_frame(&mut self, meta: &FileMetadata, has_xor_diff: bool, bytes_per_row: u64)
        ensures
            ({
                let (page, col) = match old(self).pending_jump_offset {
                    Some(off) => (spec_page_of(off, *meta), spec_col_of(off, *meta)),
                    None => (old(self).current_page as int, old(self).col_offset_in_page as int),
                };
                let tp = if meta.total_pages >= 1 { meta.total_pages as int } else { 1 };
                let pl = if meta.page_length >= 1 { meta.page_length as int } else { 1 };
                &&& final(self).current_page == min_int(page, tp - 1)
                &&& final(self).col_offset_in_page == min_int(col, sat_sub(pl, bytes_per_row as int))
            }),
            final(self).pending_jump_offset is None,
            old(self).pending_jump_offset matches Some(off) ==> final(self).goto_address_input@ == goto_text(off),
            old(self).pending_jump_offset is None ==> final(self).goto_address_input == old(self).goto_address_input,
            final(self).diff_mode == if !has_xor_diff && old(self).diff_mode != HexDiffMode::XorOnly {
                HexDiffMode::XorOnly
            } else {
                old(self).diff_mode
            },
            final(self).display_mode == old(self).display_mode,
            final(self).goto_error == old(self).goto_error,
            final(self).jump_to_nand == old(self).jump_to_nand,
    {
        let old_diff = self.diff_mode;
        match self.pending_jump_offset {
            Some(target) => {
                self.jump_to_linear_offset(target, meta);
                self.pending_jump_offset = None;
            },
            None => {},
        }
        if !has_xor_diff && old_diff != HexDiffMode::XorOnly {
            self.diff_mode = HexDiffMode::XorOnly;
        } else {
            self.diff_mode = old_diff;
        }
        let tp: u64 = if meta.total_pages >= 1 { meta.total_pages } else { 1 };
        let pl: u64 = if meta.page_length >= 1 { meta.page_length as u64 } else { 1 };
        self.current_page = min_u64(self.current_page, tp - 1);
        self.col_offset_in_page = min_u64(self.col_offset_in_page, sub_sat(pl, bytes_per_row));
    }

    /// Applies one frame of keyboard and wheel input to the page and column.
    pub fn handle_keyboard_inputs(&mut self, input: NavInput, bounds: NavBounds)
        requires
            nav_ok(old(self).current_page as int, old(self).col_offset_in_page as int, input, bounds),
        ensures
            (final(self).current_page as int, final(self).col_offset_in_page as int) == nav_result(
                old(self).current_page as int,
                old(self).col_offset_in_page as int,
                input,
                bounds,
            ),
    {
        let last = if bounds.total_pages >= 1 { bounds.total_pages - 1 } else { 0 };
        let max_col = if bounds.page_length >= bounds.bytes_per_row {
            bounds.page_length - bounds.bytes_per_row
        } else {
            0
        };
        let half = if bounds.bytes_per_row / 2 >= 1 { bounds.bytes_per_row / 2 } else { 1 };
        let bs = bounds.block_size;
        let page = self.current_page;
        let col = self.col_offset_in_page;
        let p1 = if input.up {
            if input.ctrl { sub_sat(page, bs) } else { sub_sat(page, 1) }
        } else if input.down {
            if input.ctrl { min_u64(page + bs, last) } else { min_u64(page + 1, last) }
        } else {
            page
        };
        let c1 = if input.left {
            if input.ctrl { sub_sat(col, half) } else { sub_sat(col, 1) }
        } else if input.right {
            if input.ctrl { min_u64(col + half, max_col) } else { min_u64(col + 1, max_col) }
        } else {
            col
        };
        let p2 = if input.page_up {
            if input.ctrl { sub_sat(p1, bs) } else { sub_sat(p1, bounds.visible_pages) }
        } else if input.page_down {
            if input.ctrl { min_u64(p1 + bs, last) } else { min_u64(p1 + bounds.visible_pages, last) }
        } else {
            p1
        };
        let (p3, c3) = if input.home {
            (if input.ctrl { 0 } else { p2 }, 0)
        } else if input.end {
            (if input.ctrl { last } else { p2 }, max_col)
        } else {
            (p2, c1)
        };
        let p4 = if input.wheel_pages > 0 {
            sub_sat(p3, input.wheel_pages as u64)
        } else if input.wheel_pages < 0 {
            min_u64(p3 + (-input.wheel_pages) as u64, last)
        } else {
            p3
        };
        let c4 = if input.wheel_cols > 0 {
            min_u64(c3 + input.wheel_cols as u64, max_col)
        } else if input.wheel_cols < 0 {
            sub_sat(c3, (-input.wheel_cols) as u64)
        } else {
            c3
        };
        self.current_page = p4;
        self.col_offset_in_page = c4;
    }
}

fn sub_sat(a: u64, b: u64) -> (r: u64)
    ensures
        r == sat_sub(a as int, b as int),
{
    if a >= b { a - b } else { 0 }
}

fn min_u64(a: u64, b: u64) -> (r: u64)
    ensures
        r == min_int(a as int, b as int),
{
    if a <= b { a } else { b }
}

fn all_decimal(t: &[char]) -> (b: bool)
    ensures
        b == crate::text::all_digits(t@),
{
    let mut i: usize = 0;
    while i < t.len()
        invariant
            i <= t@.len(),
            forall|k: int| 0 <= k < i ==> #[trigger] is_digit(t@[k]),
        decreases t@.len() - i,
    {
        if t[i] < '0' || t[i] > '9' {
            assert(!is_digit(t@[i as int]));
            return false;
        }
        i = i + 1;
    }
    true
}

/// Index of the first match at or after index `k` whose offset is past `cur`.
pub open spec fn first_after(rs: Seq<SearchResult>, cur: int, k: int) -> Option<int>
    decreases rs.len() - k,
{
    if k < 0 || k >= rs.len() {
        None
    } else if rs[k].byte_offset > cur {
        Some(k)
    } else {
        first_after(rs, cur, k + 1)
    }
}

/// Index of the last match before index `k` whose offset is before `cur`.
pub open spec fn last_before(rs: Seq<SearchResult>, cur: int, k: int) -> Option<int>
    decreases k,
{
    if k <= 0 || k > rs.len() {
        None
    } else if rs[k - 1].byte_offset < cur {
        Some(k - 1)
    } else {
        last_before(rs, cur, k - 1)
    }
}

/// The match to jump to from offset `cur`: forward, the first match after it
/// (else the first match); backward, the last match before it (else the last).
pub open spec fn adjacent_match(rs: Seq<SearchResult>, cur: int, forward: bool) -> u64 {
    if forward {
        match first_after(rs, cur, 0) {
            Some(i) => rs[i].byte_offset,
            None => rs[0].byte_offset,
        }
    } else {
        match last_before(rs, cur, rs.len() as int) {
            Some(i) => rs[i].byte_offset,
            None => rs[rs.len() - 1].byte_offset,
        }
    }
}

/// What `first_after` finds from index `k`: a later match past `cur` with
/// none before it (from `k` on), or, when it finds none, no match past `cur`
/// from `k` on.
proof fn lemma_first_after(rs: Seq<SearchResult>, cur: int, k: int)
    requires
        0 <= k,
    ensures
        first_after(rs, cur, k) matches Some(i) ==> k <= i < rs.len() && rs[i].byte_offset > cur && forall|j: int|
            k <= j < i ==> #[trigger] rs[j].byte_offset <= cur,
        first_after(rs, cur, k) is None ==> forall|j: int| k <= j < rs.len() ==> #[trigger] rs[j].byte_offset <= cur,
    decreases rs.len() - k,
{
    if k < rs.len() && rs[k].byte_offset <= cur {
        lemma_first_after(rs, cur, k + 1);
    }
}

/// What `last_before` finds below index `k`: an earlier match before `cur`
/// with none after it (below `k`), or, when it finds none, no match before
/// `cur` below `k`.
proof fn lemma_last_before(rs: Seq<SearchResult>, cur: int, k: int)
    requires
        k <= rs.len(),
    ensures
        last_before(rs, cur, k) matches Some(i) ==> 0 <= i < k && rs[i].byte_offset < cur && forall|j: int|
            i < j < k ==> #[trigger] rs[j].byte_offset >= cur,
        last_before(rs, cur, k) is None ==> forall|j: int| 0 <= j < k ==> #[trigger] rs[j].byte_offset >= cur,
    decreases k,
{
    if k > 0 && rs[k - 1].byte_offset >= cur {
        lemma_last_before(rs, cur, k - 1);
    }
}

/// Jumping to the next search match from offset `cur` lands strictly after
/// `cur` whenever some match lies after it, on the first such match in the
/// list; when none does, it wraps around to the first match. Jumping to the
/// previous match lands strictly before `cur` whenever some match lies before
/// it, on the last such match in the list; when none does, it wraps around to
/// the last match.
pub proof fn lemma_adjacent_match(rs: Seq<SearchResult>, cur: int)
    requires
        rs.len() > 0,
    ensures
        (exists|k: int| 0 <= k < rs.len() && #[trigger] rs[k].byte_offset > cur) ==> {
            &&& adjacent_match(rs, cur, true) > cur
            &&& exists|i: int|
                0 <= i < rs.len() && #[trigger] rs[i].byte_offset == adjacent_match(rs, cur, true) && forall|j: int|
                    0 <= j < i ==> #[trigger] rs[j].byte_offset <= cur
        },
        (forall|k: int| 0 <= k < rs.len() ==> #[trigger] rs[k].byte_offset <= cur) ==> adjacent_match(rs, cur, true)
            == rs[0].byte_offset,
        (exists|k: int| 0 <= k < rs.len() && #[trigger] rs[k].byte_offset < cur) ==> {
            &&& adjacent_match(rs, cur, false) < cur
            &&& exists|i: int|
                0 <= i < rs.len() && #[trigger] rs[i].byte_offset == adjacent_match(rs, cur, false) && forall|j: int|
                    i < j < rs.len() ==> #[trigger] rs[j].byte_offset >= cur
        },
        (forall|k: int| 0 <= k < rs.len() ==> #[trigger] rs[k].byte_offset >= cur) ==> adjacent_match(rs, cur, false)
            == rs[rs.len() - 1].byte_offset,
{
    lemma_first_after(rs, cur, 0);
    lemma_last_before(rs, cur, rs.len() as int);
}

/// Jumping to an offset inside the dump and reading the view's offset back
/// gives the same offset: the page times the page length plus the column.
/// (Past the last page the view stops at the last page, so there the offset
/// read back is smaller.)
pub proof fn lemma_jump_offset_round_trip(offset: u64, m: FileMetadata)
    requires
        m.page_length >= 1,
        (offset as int) < m.total_pages * m.page_length,
    ensures
        spec_page_of(offset, m) * m.page_length + spec_col_of(offset, m) == offset,
{
    let pl = m.page_length as int;
    let tp = m.total_pages as int;
    assert(offset as int / pl < tp) by (nonlinear_arith)
        requires
            pl >= 1,
            0 <= offset < tp * pl,
    ;
    assert((offset as int / pl) * pl + offset as int % pl == offset) by (nonlinear_arith)
        requires
            pl >= 1,
    ;
}

/// The NAND coordinates (block, page, byte in page) of an offset lead back
/// to that offset.
pub proof fn lemma_nand_coords_round_trip(offset: u64, m: FileMetadata)
    requires
        m.page_length >= 1,
        m.block_size >= 1,
    ensures
        crate::search::block_of(offset as int, m.page_length as int, m.block_size as int) * (m.page_length
            * m.block_size) + crate::search::page_of(offset as int, m.page_length as int, m.block_size as int)
            * m.page_length + crate::search::offset_in_page_of(offset as int, m.page_length as int, m.block_size as int)
            == offset,
{
    let pl = m.page_length as int;
    let bs = m.block_size as int;
    let o = offset as int;
    assert(bs * pl > 0 && bs * pl == pl * bs) by (nonlinear_arith)
        requires
            pl >= 1,
            bs >= 1,
    ;
    let stride = bs * pl;
    let inb = o % stride;
    assert((o / stride) * stride + inb == o) by (nonlinear_arith)
        requires
            stride > 0,
            inb == o % stride,
    ;
    assert((inb / pl) * pl + inb % pl == inb) by (nonlinear_arith)
        requires
            pl >= 1,
    ;
}

} // verus!
