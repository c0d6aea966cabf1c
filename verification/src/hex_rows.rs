//! What the rows of the page-by-page hex view show: which pages are on
//! screen, each row's location prefix, each byte cell (the value shown, its
//! colour class, XOR difference, search highlight and segment shading), the
//! ASCII column, the column header and the details of a hovered byte.

use vstd::prelude::*;
use crate::hex_tab::{
    HexDiffMode, HexDisplayMode, HexTabState, PageSegmentKind, PageStructureRecord, RecordView,
    record_views, segment_index_at, lemma_segment_index_bounds,
};
use crate::search::{SearchResult, block_of, page_of, preview_char, printable};
use crate::types::FileMetadata;
use crate::data_provider::DumpDataProvider;
use crate::text::{
    dec_digits, padded_dec, padded_hex, push_decimal, push_padded_decimal, push_padded_hex, push_str,
    string_from_chars,
};

verus! {

/// Colour class of a byte in the hex grid.
#[derive(Debug, Clone, Copy, PartialEq, Eq, Structural)]
pub enum ByteClass {
    /// The XOR output differs from the raw byte (colour-diff mode only).
    XorChanged,
    /// `0x00`.
    Zero,
    /// `0xFF`.
    AllOnes,
    /// Any other byte.
    Normal,
}

/// Background shading of a byte from the page-structure segment it lies in.
#[derive(Debug, Clone, Copy, PartialEq, Eq, Structural)]
pub enum SegmentShade {
    Plain,
    Spare,
    Ecc,
}

/// One byte cell of a hex row.
#[derive(Debug, Clone, Copy, PartialEq, Eq, Structural)]
pub struct HexCell {
    /// The byte shown.
    pub value: u8,
    /// Its colour class.
    pub class: ByteClass,
    /// Whether the XOR output differs from the raw byte here.
    pub changed: bool,
    /// Whether the byte lies inside a search match (drawn highlighted).
    pub in_search: bool,
    /// Segment shading behind the byte.
    pub shade: SegmentShade,
}

/// A column of the header bar: the low byte of the column number and the
/// kind of the segment that covers the column.
#[derive(Debug, Clone, Copy, PartialEq, Eq, Structural)]
pub struct HeaderCell {
    pub label: u8,
    pub kind: Option<PageSegmentKind>,
}

/// One rendered page row.
pub struct HexRow {
    /// `B:bbbb P:ppp +cccc | `.
    pub prefix: String,
    /// The byte cells (none in ASCII-only mode).
    pub cells: Vec<HexCell>,
    /// The ASCII column (none in hex-only mode).
    pub ascii: Option<String>,
}

/// Byte `i` of `s`, if there is one.
pub open spec fn byte_at(s: Seq<u8>, i: int) -> Option<u8> {
    if 0 <= i < s.len() { Some(s[i]) } else { None }
}

pub open spec fn or_zero(b: Option<u8>) -> u8 {
    match b {
        Some(v) => v,
        None => 0,
    }
}

/// The byte shown: the raw byte in raw mode, otherwise the XOR output
/// (0 where there is none).
pub open spec fn shown_byte(mode: HexDiffMode, active: Option<u8>, raw: Option<u8>) -> u8 {
    if mode == HexDiffMode::RawOnly { or_zero(raw) } else { or_zero(active) }
}

/// Whether the output and raw bytes both exist and differ while an XOR
/// stage is active.
pub open spec fn byte_changed(has_xor_diff: bool, active: Option<u8>, raw: Option<u8>) -> bool {
    has_xor_diff && active is Some && raw is Some && active != raw
}

/// Whether linear offset `off` lies inside one of the matches of a pattern
/// of `len` bytes.
pub open spec fn in_match(off: int, results: Seq<SearchResult>, len: int) -> bool {
    len > 0 && exists|i: int| 0 <= i < results.len() && #[trigger] results[i].byte_offset <= off
        && off < results[i].byte_offset + len
}

pub open spec fn class_of(mode: HexDiffMode, changed: bool, value: u8) -> ByteClass {
    if mode == HexDiffMode::ColorDiff && changed {
        ByteClass::XorChanged
    } else if value == 0 {
        ByteClass::Zero
    } else if value == 0xff {
        ByteClass::AllOnes
    } else {
        ByteClass::Normal
    }
}

/// Kind of the first segment covering column `col`, if any.
pub open spec fn kind_at(col: u64, rs: Seq<RecordView>) -> Option<PageSegmentKind> {
    match segment_index_at(col, rs) {
        Some(i) => Some(rs[i].3),
        None => None,
    }
}

pub open spec fn shade_of(kind: Option<PageSegmentKind>) -> SegmentShade {
    match kind {
        Some(PageSegmentKind::SpareArea) => SegmentShade::Spare,
        Some(PageSegmentKind::Ecc) => SegmentShade::Ecc,
        _ => SegmentShade::Plain,
    }
}

/// The cell for a byte at column `col` and linear offset `off`.
pub open spec fn spec_cell(
    mode: HexDiffMode,
    active: Option<u8>,
    raw: Option<u8>,
    has_xor_diff: bool,
    off: int,
    results: Seq<SearchResult>,
    len: int,
    col: u64,
    rs: Seq<RecordView>,
) -> HexCell {
    let value = shown_byte(mode, active, raw);
    let changed = byte_changed(has_xor_diff, active, raw);
    HexCell {
        value,
        class: class_of(mode, changed, value),
        changed,
        in_search: in_match(off, results, len),
        shade: shade_of(kind_at(col, rs)),
    }
}

fn kind_at_column(col: u64, records: &[PageStructureRecord]) -> (k: Option<PageSegmentKind>)
    ensures
        k == kind_at(col, record_views(records@)),
{
    proof {
        lemma_segment_index_bounds(col, record_views(records@));
    }
    match HexTabState::find_segment_at_column(col, records) {
        Some(r) => Some(r.kind),
        None => None,
    }
}

fn match_covers(off: u64, results: &[SearchResult], len: usize) -> (b: bool)
    ensures
        b == in_match(off as int, results@, len as int),
{
    if len == 0 {
        return false;
    }
    let mut i: usize = 0;
    while i < results.len()
        invariant
            i <= results@.len(),
            len > 0,
            forall|j: int| 0 <= j < i ==> !(#[trigger] results@[j].byte_offset <= off
                && off < results@[j].byte_offset + len),
        decreases results@.len() - i,
    {
        let start = results[i].byte_offset;
        if off >= start && off - start < len as u64 {
            return true;
        }
        i = i + 1;
    }
    false
}

/// The cell of one byte of the hex grid.
pub fn hex_cell(
    diff_mode: HexDiffMode,
    active: Option<u8>,
    raw: Option<u8>,
    has_xor_diff: bool,
    byte_linear_offset: u64,
    search_results: &[SearchResult],
    search_pattern_len: usize,
    abs_col: u64,
    page_records: &[PageStructureRecord],
) -> (c: HexCell)
    ensures
        c == spec_cell(
            diff_mode,
            active,
            raw,
            has_xor_diff,
            byte_linear_offset as int,
            search_results@,
            search_pattern_len as int,
            abs_col,
            record_views(page_records@),
        ),
{
    let value = match diff_mode {
        HexDiffMode::RawOnly => match raw {
            Some(v) => v,
            None => 0,
        },
        _ => match active {
            Some(v) => v,
            None => 0,
        },
    };
    let changed = has_xor_diff && match (active, raw) {
        (Some(a), Some(r)) => a != r,
        _ => false,
    };
    let class = if diff_mode == HexDiffMode::ColorDiff && changed {
        ByteClass::XorChanged
    } else if value == 0 {
        ByteClass::Zero
    } else if value == 0xff {
        ByteClass::AllOnes
    } else {
        ByteClass::Normal
    };
    let shade = match kind_at_column(abs_col, page_records) {
        Some(PageSegmentKind::SpareArea) => SegmentShade::Spare,
        Some(PageSegmentKind::Ecc) => SegmentShade::Ecc,
        _ => SegmentShade::Plain,
    };
    HexCell {
        value,
        class,
        changed,
        in_search: match_covers(byte_linear_offset, search_results, search_pattern_len),
        shade,
    }
}

/// Block and page-in-block of a page (both 0 when the block size is 0).
pub open spec fn spec_row_location(page: u64, block_size: u64) -> (u64, u64) {
    if block_size > 0 {
        ((page / block_size) as u64, (page % block_size) as u64)
    } else {
        (0, 0)
    }
}

/// Block and page-in-block of a row's page.
pub fn row_location(page: u64, block_size: u64) -> (r: (u64, u64))
    ensures
        r == spec_row_location(page, block_size),
{
    if block_size > 0 {
        (page / block_size, page % block_size)
    } else {
        (0, 0)
    }
}

/// `B:{block:04} P:{page:03} +{col:04X} | `.
pub open spec fn spec_row_prefix(block: u64, page: u64, col: u64) -> Seq<char> {
    "B:"@ + padded_dec(block as nat, 4) + " P:"@ + padded_dec(page as nat, 3) + " +"@
        + padded_hex(col as nat, 4) + " | "@
}

/// The location prefix of a row.
pub fn row_prefix(block: u64, page: u64, col: u64) -> (s: String)
    ensures
        s@ == spec_row_prefix(block, page, col),
{
    let mut out: Vec<char> = Vec::new();
    push_str(&mut out, "B:");
    push_padded_decimal(&mut out, block, 4);
    push_str(&mut out, " P:");
    push_padded_decimal(&mut out, page, 3);
    push_str(&mut out, " +");
    push_padded_hex(&mut out, col, 4);
    push_str(&mut out, " | ");
    string_from_chars(out.as_slice())
}

/// The byte of the ASCII column at column `i`: the byte the grid shows, or
/// in ASCII-only mode the XOR output (0 where there is none).
pub open spec fn ascii_byte(
    display: HexDisplayMode,
    diff: HexDiffMode,
    active: Seq<u8>,
    raw: Seq<u8>,
    i: int,
) -> u8 {
    if display == HexDisplayMode::AsciiOnly {
        or_zero(byte_at(active, i))
    } else {
        shown_byte(diff, byte_at(active, i), byte_at(raw, i))
    }
}

/// The ASCII column of a row of `n` bytes.
pub open spec fn spec_ascii(
    display: HexDisplayMode,
    diff: HexDiffMode,
    active: Seq<u8>,
    raw: Seq<u8>,
    n: nat,
) -> Seq<char> {
    Seq::new(n, |i: int| preview_char(ascii_byte(display, diff, active, raw, i)))
}

fn get_byte(s: &[u8], i: usize) -> (b: Option<u8>)
    ensures
        b == byte_at(s@, i as int),
{
    if i < s.len() {
        Some(s[i])
    } else {
        None
    }
}

/// One page row of the hex view. `active` and `raw` are the row's output and
/// raw bytes from the column offset on (either may be shorter than the row,
/// or empty where the read failed).
pub fn hex_row(
    state: &HexTabState,
    page_num: u64,
    block_size: u64,
    page_length: u64,
    active: &[u8],
    raw: &[u8],
    bytes_per_row: usize,
    has_xor_diff: bool,
    search_results: &[SearchResult],
    search_pattern_len: usize,
    page_records: &[PageStructureRecord],
) -> (r: HexRow)
    requires
        page_num * page_length + state.col_offset_in_page + bytes_per_row <= u64::MAX,
    ensures
        r.prefix@ == spec_row_prefix(
            spec_row_location(page_num, block_size).0,
            spec_row_location(page_num, block_size).1,
            state.col_offset_in_page,
        ),
        state.display_mode == HexDisplayMode::AsciiOnly ==> r.cells@.len() == 0,
        state.display_mode != HexDisplayMode::AsciiOnly ==> r.cells@.len() == bytes_per_row,
        state.display_mode != HexDisplayMode::AsciiOnly ==> forall|i: int|
            0 <= i < bytes_per_row ==> #[trigger] r.cells@[i] == spec_cell(
                state.diff_mode,
                byte_at(active@, i),
                byte_at(raw@, i),
                has_xor_diff,
                page_num * page_length + state.col_offset_in_page + i,
                search_results@,
                search_pattern_len as int,
                (state.col_offset_in_page + i) as u64,
                record_views(page_records@),
            ),
        state.display_mode == HexDisplayMode::HexOnly ==> r.ascii is None,
        state.display_mode != HexDisplayMode::HexOnly ==> (r.ascii matches Some(a) && a@ == spec_ascii(
            state.display_mode,
            state.diff_mode,
            active@,
            raw@,
            bytes_per_row as nat,
        )),
{
    let (block_idx, page_in_block) = row_location(page_num, block_size);
    let prefix = row_prefix(block_idx, page_in_block, state.col_offset_in_page);
    let base = page_num * page_length;
    let col0 = state.col_offset_in_page;
    let ascii_only = state.display_mode == HexDisplayMode::AsciiOnly;
    let mut cells: Vec<HexCell> = Vec::new();
    let mut chars: Vec<char> = Vec::new();
    let mut i: usize = 0;
    while i < bytes_per_row
        invariant
            i <= bytes_per_row,
            base == page_num * page_length,
            col0 == state.col_offset_in_page,
            ascii_only == (state.display_mode == HexDisplayMode::AsciiOnly),
            base + col0 + bytes_per_row <= u64::MAX,
            ascii_only ==> cells@.len() == 0,
            !ascii_only ==> cells@.len() == i,
            !ascii_only ==> forall|k: int|
                0 <= k < i ==> #[trigger] cells@[k] == spec_cell(
                    state.diff_mode,
                    byte_at(active@, k),
                    byte_at(raw@, k),
                    has_xor_diff,
                    base + col0 + k,
                    search_results@,
                    search_pattern_len as int,
                    (col0 + k) as u64,
                    record_views(page_records@),
                ),
            chars@ =~= Seq::new(i as nat, |k: int| preview_char(
                ascii_byte(state.display_mode, state.diff_mode, active@, raw@, k),
            )),
        decreases bytes_per_row - i,
    {
        let act = get_byte(active, i);
        let rb = get_byte(raw, i);
        let abs_col = col0 + i as u64;
        if ascii_only {
            let b = match act {
                Some(v) => v,
                None => 0,
            };
            chars.push(printable(b));
        } else {
            let cell = hex_cell(
                state.diff_mode,
                act,
                rb,
                has_xor_diff,
                base + abs_col,
                search_results,
                search_pattern_len,
                abs_col,
                page_records,
            );
            chars.push(printable(cell.value));
            cells.push(cell);
        }
        i = i + 1;
    }
    let ascii = if state.display_mode == HexDisplayMode::HexOnly {
        None
    } else {
        Some(string_from_chars(chars.as_slice()))
    };
    HexRow { prefix, cells, ascii }
}

/// The column header of the hex grid (empty in ASCII-only mode).
pub fn column_header(state: &HexTabState, bytes_per_row: usize, page_records: &[PageStructureRecord]) -> (v: Vec<
    HeaderCell,
>)
    requires
        state.col_offset_in_page + bytes_per_row <= u64::MAX,
    ensures
        state.display_mode == HexDisplayMode::AsciiOnly ==> v@.len() == 0,
        state.display_mode != HexDisplayMode::AsciiOnly ==> v@.len() == bytes_per_row,
        state.display_mode != HexDisplayMode::AsciiOnly ==> forall|i: int|
            0 <= i < bytes_per_row ==> #[trigger] v@[i] == (HeaderCell {
                label: ((state.col_offset_in_page + i) % 256) as u8,
                kind: kind_at((state.col_offset_in_page + i) as u64, record_views(page_records@)),
            }),
{
    let mut v: Vec<HeaderCell> = Vec::new();
    if state.display_mode == HexDisplayMode::AsciiOnly {
        return v;
    }
    let col0 = state.col_offset_in_page;
    let mut i: usize = 0;
    while i < bytes_per_row
        invariant
            i <= bytes_per_row,
            col0 == state.col_offset_in_page,
            col0 + bytes_per_row <= u64::MAX,
            v@.len() == i,
            forall|k: int|
                0 <= k < i ==> #[trigger] v@[k] == (HeaderCell {
                    label: ((col0 + k) % 256) as u8,
                    kind: kind_at((col0 + k) as u64, record_views(page_records@)),
                }),
        decreases bytes_per_row - i,
    {
        let abs_col = col0 + i as u64;
        v.push(HeaderCell { label: (abs_col % 256) as u8, kind: kind_at_column(abs_col, page_records) });
        i = i + 1;
    }
    v
}

/// The pages on screen: up to `visible` pages from `current`, stopping at
/// the last page of the dump.
pub open spec fn spec_visible_rows(current: u64, visible: usize, total: u64) -> Seq<u64> {
    let n: int = if current >= total {
        0
    } else if visible <= total - current {
        visible as int
    } else {
        total - current
    };
    Seq::new(n as nat, |i: int| (current + i) as u64)
}

/// The pages whose rows are on screen.
pub fn visible_rows(current_page: u64, visible_pages: usize, total_pages: u64) -> (v: Vec<u64>)
    ensures
        v@ == spec_visible_rows(current_page, visible_pages, total_pages),
{
    let mut v: Vec<u64> = Vec::new();
    let mut row: usize = 0;
    let mut page = current_page;
    while row < visible_pages && page < total_pages
        invariant
            row <= visible_pages,
            page == current_page + row,
            row > 0 ==> current_page + row <= total_pages,
            v@ =~= Seq::new(row as nat, |i: int| (current_page + i) as u64),
        decreases visible_pages - row,
    {
        v.push(page);
        row = row + 1;
        page = page + 1;
    }
    v
}

/// The name a segment kind is shown with in the byte details.
pub open spec fn kind_name(k: PageSegmentKind) -> Seq<char> {
    match k {
        PageSegmentKind::Data => "Data"@,
        PageSegmentKind::Ecc => "Ecc"@,
        PageSegmentKind::SpareArea => "SpareArea"@,
        PageSegmentKind::Other => "Other"@,
    }
}

fn kind_label(k: PageSegmentKind) -> (s: &'static str)
    ensures
        s@ == kind_name(k),
{
    match k {
        PageSegmentKind::Data => "Data",
        PageSegmentKind::Ecc => "Ecc",
        PageSegmentKind::SpareArea => "SpareArea",
        PageSegmentKind::Other => "Other",
    }
}

/// The lines shown for a hovered byte: its page and column, linear offset,
/// raw and output values, their XOR and, where one covers the column, the
/// segment's name and kind.
pub open spec fn spec_byte_details(
    page: u64,
    col: u64,
    off: u64,
    raw: u8,
    active: u8,
    segment: Option<(Seq<char>, PageSegmentKind)>,
) -> Seq<Seq<char>> {
    let lines = seq![
        "Page: "@ + dec_digits(page as nat) + ", Col: 0x"@ + padded_hex(col as nat, 4) + " ("@
            + dec_digits(col as nat) + ")"@,
        "Linear: 0x"@ + padded_hex(off as nat, 8),
        "Raw:    0x"@ + padded_hex(raw as nat, 2) + " ("@ + dec_digits(raw as nat) + ")"@,
        "Output: 0x"@ + padded_hex(active as nat, 2) + " ("@ + dec_digits(active as nat) + ")"@,
        "XOR:    0x"@ + padded_hex((raw ^ active) as nat, 2),
    ];
    match segment {
        Some((name, kind)) => lines.push("Segment: "@ + name + " ("@ + kind_name(kind) + ")"@),
        None => lines,
    }
}

fn line_of(out: &Vec<char>) -> (s: String)
    ensures
        s@ == out@,
{
    string_from_chars(out.as_slice())
}

/// The details of a hovered byte at column `col` of page `page`.
pub fn byte_details(
    page: u64,
    col: u64,
    off: u64,
    raw: u8,
    active: u8,
    page_records: &[PageStructureRecord],
) -> (v: Vec<String>)
    ensures
        v@.map_values(|s: String| s@) == spec_byte_details(
            page,
            col,
            off,
            raw,
            active,
            match segment_index_at(col, record_views(page_records@)) {
                Some(i) => Some((page_records@[i].name@, page_records@[i].kind)),
                None => None,
            },
        ),
{
    let mut v: Vec<String> = Vec::new();
    let mut l: Vec<char> = Vec::new();
    push_str(&mut l, "Page: ");
    push_decimal(&mut l, page);
    push_str(&mut l, ", Col: 0x");
    push_padded_hex(&mut l, col, 4);
    push_str(&mut l, " (");
    push_decimal(&mut l, col);
    push_str(&mut l, ")");
    v.push(line_of(&l));
    let mut l: Vec<char> = Vec::new();
    push_str(&mut l, "Linear: 0x");
    push_padded_hex(&mut l, off, 8);
    v.push(line_of(&l));
    let mut l: Vec<char> = Vec::new();
    push_str(&mut l, "Raw:    0x");
    push_padded_hex(&mut l, raw as u64, 2);
    push_str(&mut l, " (");
    push_decimal(&mut l, raw as u64);
    push_str(&mut l, ")");
    v.push(line_of(&l));
    let mut l: Vec<char> = Vec::new();
    push_str(&mut l, "Output: 0x");
    push_padded_hex(&mut l, active as u64, 2);
    push_str(&mut l, " (");
    push_decimal(&mut l, active as u64);
    push_str(&mut l, ")");
    v.push(line_of(&l));
    let mut l: Vec<char> = Vec::new();
    push_str(&mut l, "XOR:    0x");
    push_padded_hex(&mut l, (raw ^ active) as u64, 2);
    v.push(line_of(&l));
    proof {
        lemma_segment_index_bounds(col, record_views(page_records@));
    }
    match HexTabState::find_segment_at_column(col, page_records) {
        Some(r) => {
            let mut l: Vec<char> = Vec::new();
            push_str(&mut l, "Segment: ");
            push_str(&mut l, r.name.as_str());
            push_str(&mut l, " (");
            push_str(&mut l, kind_label(r.kind));
            push_str(&mut l, ")");
            v.push(line_of(&l));
        },
        None => {},
    }
    let ghost seg = match segment_index_at(col, record_views(page_records@)) {
        Some(i) => Some((page_records@[i].name@, page_records@[i].kind)),
        None => None,
    };
    assert(v@.map_values(|s: String| s@) =~= spec_byte_details(page, col, off, raw, active, seg));
    v
}

/// The hint under the page scrollbar's tooltip: the active drag mode, or how
/// to enter one.
pub open spec fn mode_hint(velocity_mode: Seq<char>) -> Seq<char> {
    if velocity_mode.len() > 0 {
        "\nActive: "@ + velocity_mode
    } else {
        "\nHold Shift for Fine Mode (1 Page/px), Ctrl for Block Mode"@
    }
}

/// `Page {p} / {total} (Block {b}, Page {pb})`, the scrubbing hint and the
/// drag-mode hint.
pub open spec fn spec_page_scroll_tooltip(page: u64, total: u64, block_size: u64, velocity_mode: Seq<char>) -> Seq<
    char,
> {
    let (b, pb) = spec_row_location(page, block_size);
    "Page "@ + dec_digits(page as nat) + " / "@ + dec_digits(total as nat) + " (Block "@ + dec_digits(b as nat)
        + ", Page "@ + dec_digits(pb as nat) + ")\nClick or drag to scrub across dump"@ + mode_hint(velocity_mode)
}

/// The tooltip of the page scrollbar.
pub fn page_scroll_tooltip(state: &HexTabState, total_pages: u64, block_size: u64) -> (s: String)
    ensures
        s@ == spec_page_scroll_tooltip(state.current_page, total_pages, block_size, state.scroll_velocity_mode@),
{
    let (b, pb) = row_location(state.current_page, block_size);
    let mut out: Vec<char> = Vec::new();
    push_str(&mut out, "Page ");
    push_decimal(&mut out, state.current_page);
    push_str(&mut out, " / ");
    push_decimal(&mut out, total_pages);
    push_str(&mut out, " (Block ");
    push_decimal(&mut out, b);
    push_str(&mut out, ", Page ");
    push_decimal(&mut out, pb);
    push_str(&mut out, ")\nClick or drag to scrub across dump");
    if state.scroll_velocity_mode.as_str().unicode_len() > 0 {
        push_str(&mut out, "\nActive: ");
        push_str(&mut out, state.scroll_velocity_mode.as_str());
    } else {
        push_str(&mut out, "\nHold Shift for Fine Mode (1 Page/px), Ctrl for Block Mode");
    }
    string_from_chars(out.as_slice())
}

/// `Page Col: 0x{col:04X} ({col}) / PageLen: {len} (showing {col}..{end})`,
/// the segment under the pointer and the scrubbing hint; `end` is the end of
/// the row, at most the page length.
pub open spec fn spec_column_scroll_tooltip(
    col: u64,
    page_length: u64,
    bytes_per_row: u64,
    segment: Option<(Seq<char>, PageSegmentKind)>,
) -> Seq<char> {
    let end = if col + bytes_per_row <= page_length { col + bytes_per_row } else { page_length as int };
    let seg = match segment {
        Some((name, kind)) => " | Segment: "@ + name + " ("@ + kind_name(kind) + ")"@,
        None => Seq::<char>::empty(),
    };
    "Page Col: 0x"@ + padded_hex(col as nat, 4) + " ("@ + dec_digits(col as nat) + ") / PageLen: "@
        + dec_digits(page_length as nat) + " (showing "@ + dec_digits(col as nat) + ".."@ + dec_digits(end as nat)
        + ")"@ + seg + "\nClick or drag to scrub across the page horizontally"@
}

/// The tooltip of the column scrollbar, with the segment at column
/// `hover_col` (the column under the pointer).
pub fn column_scroll_tooltip(
    state: &HexTabState,
    page_length: u64,
    bytes_per_row: u64,
    hover_col: u64,
    page_records: &[PageStructureRecord],
) -> (s: String)
    requires
        state.col_offset_in_page + bytes_per_row <= u64::MAX,
    ensures
        s@ == spec_column_scroll_tooltip(
            state.col_offset_in_page,
            page_length,
            bytes_per_row,
            match segment_index_at(hover_col, record_views(page_records@)) {
                Some(i) => Some((page_records@[i].name@, page_records@[i].kind)),
                None => None,
            },
        ),
{
    let col = state.col_offset_in_page;
    let end = if col + bytes_per_row <= page_length { col + bytes_per_row } else { page_length };
    let mut out: Vec<char> = Vec::new();
    push_str(&mut out, "Page Col: 0x");
    push_padded_hex(&mut out, col, 4);
    push_str(&mut out, " (");
    push_decimal(&mut out, col);
    push_str(&mut out, ") / PageLen: ");
    push_decimal(&mut out, page_length);
    push_str(&mut out, " (showing ");
    push_decimal(&mut out, col);
    push_str(&mut out, "..");
    push_decimal(&mut out, end);
    push_str(&mut out, ")");
    proof {
        lemma_segment_index_bounds(hover_col, record_views(page_records@));
    }
    match HexTabState::find_segment_at_column(hover_col, page_records) {
        Some(r) => {
            push_str(&mut out, " | Segment: ");
            push_str(&mut out, r.name.as_str());
            push_str(&mut out, " (");
            push_str(&mut out, kind_label(r.kind));
            push_str(&mut out, ")");
        },
        None => {},
    }
    push_str(&mut out, "\nClick or drag to scrub across the page horizontally");
    string_from_chars(out.as_slice())
}

/// `Page Col: 0x{col:04X} ({col})`, the toolbar's column label.
pub open spec fn spec_page_col_label(col: u64) -> Seq<char> {
    "Page Col: 0x"@ + padded_hex(col as nat, 4) + " ("@ + dec_digits(col as nat) + ")"@
}

/// The toolbar's column label.
pub fn page_col_label(col: u64) -> (s: String)
    ensures
        s@ == spec_page_col_label(col),
{
    let mut out: Vec<char> = Vec::new();
    push_str(&mut out, "Page Col: 0x");
    push_padded_hex(&mut out, col, 4);
    push_str(&mut out, " (");
    push_decimal(&mut out, col);
    push_str(&mut out, ")");
    string_from_chars(out.as_slice())
}

/// `Matches: {n}`, the toolbar's search-match count.
pub fn matches_label(n: usize) -> (s: String)
    ensures
        s@ == "Matches: "@ + dec_digits(n as nat),
{
    let mut out: Vec<char> = Vec::new();
    push_str(&mut out, "Matches: ");
    push_decimal(&mut out, n as u64);
    string_from_chars(out.as_slice())
}

/// `{name} (0x{start:X}..0x{stop:X}, {len} B)`, an entry of the structure
/// menu.
pub open spec fn spec_structure_entry(name: Seq<char>, start: u64, stop: u64) -> Seq<char> {
    name + " (0x"@ + padded_hex(start as nat, 0) + "..0x"@ + padded_hex(stop as nat, 0) + ", "@ + dec_digits(
        (stop - start + 1) as nat,
    ) + " B)"@
}

/// The structure menu's entry for a record.
pub fn structure_entry_label(record: &PageStructureRecord) -> (s: String)
    requires
        record.start <= record.stop,
        record.stop - record.start < u64::MAX,
    ensures
        s@ == spec_structure_entry(record.name@, record.start, record.stop),
{
    let mut out: Vec<char> = Vec::new();
    push_str(&mut out, record.name.as_str());
    push_str(&mut out, " (0x");
    push_padded_hex(&mut out, record.start, 0);
    push_str(&mut out, "..0x");
    push_padded_hex(&mut out, record.stop, 0);
    push_str(&mut out, ", ");
    push_decimal(&mut out, record.stop - record.start + 1);
    push_str(&mut out, " B)");
    string_from_chars(out.as_slice())
}

/// What the structure menu shows as selected: the segment at the current
/// column, or `Segments...`.
pub fn structure_selected_text(col: u64, page_records: &[PageStructureRecord]) -> (s: String)
    ensures
        s@ == match segment_index_at(col, record_views(page_records@)) {
            Some(i) => page_records@[i].name@,
            None => "Segments..."@,
        },
{
    proof {
        lemma_segment_index_bounds(col, record_views(page_records@));
    }
    match HexTabState::find_segment_at_column(col, page_records) {
        Some(r) => r.name.clone(),
        None => "Segments...".to_string(),
    }
}

/// The label of a diff mode in the status bar.
pub open spec fn diff_mode_text(m: HexDiffMode) -> Seq<char> {
    match m {
        HexDiffMode::ColorDiff => "Diff Mode (Green: Changed, Gray: Same)"@,
        HexDiffMode::XorOnly => "XOR Output"@,
        HexDiffMode::RawOnly => "Raw Input"@,
    }
}

fn diff_mode_label(m: HexDiffMode) -> (s: &'static str)
    ensures
        s@ == diff_mode_text(m),
{
    match m {
        HexDiffMode::ColorDiff => "Diff Mode (Green: Changed, Gray: Same)",
        HexDiffMode::XorOnly => "XOR Output",
        HexDiffMode::RawOnly => "Raw Input",
    }
}

/// The status bar: position, visible columns and linear offset, then the
/// region at the current column, the diff mode while an XOR stage is active,
/// and the active drag mode, each only where there is one.
pub open spec fn spec_status_bar(
    page: u64,
    col: u64,
    m: FileMetadata,
    bytes_per_row: u64,
    has_xor_diff: bool,
    diff: HexDiffMode,
    velocity_mode: Seq<char>,
    region: Option<(Seq<char>, u64, u64)>,
) -> Seq<Seq<char>> {
    let lin = page * m.page_length + col;
    let pl = m.page_length as int;
    let bs = m.block_size as int;
    let end = if col + bytes_per_row <= pl { col + bytes_per_row } else { pl };
    let base = seq![
        "Page: "@ + dec_digits(page as nat) + " / "@ + dec_digits(m.total_pages as nat) + " | Block: "@
            + dec_digits(block_of(lin, pl, bs) as nat) + " / "@ + dec_digits(m.total_blocks as nat)
            + " | In-Block Page: "@ + dec_digits(page_of(lin, pl, bs) as nat) + " / "@ + dec_digits(
            m.block_size as nat,
        ),
        "Col: 0x"@ + padded_hex(col as nat, 4) + "..0x"@ + padded_hex(end as nat, 4) + " ("@ + dec_digits(
            bytes_per_row as nat,
        ) + " B visible) / PageLen: "@ + dec_digits(m.page_length as nat),
        "Linear: 0x"@ + padded_hex(lin as nat, 8) + " / 0x"@ + padded_hex(m.size as nat, 8),
    ];
    let with_region = match region {
        Some((name, start, stop)) => base.push(
            "Region: "@ + name + " (0x"@ + padded_hex(start as nat, 0) + "..0x"@ + padded_hex(stop as nat, 0)
                + ")"@,
        ),
        None => base,
    };
    let with_diff = if has_xor_diff { with_region.push(diff_mode_text(diff)) } else { with_region };
    if velocity_mode.len() > 0 { with_diff.push(velocity_mode) } else { with_diff }
}

/// The texts of the status bar.
pub fn status_bar_texts(
    state: &HexTabState,
    meta: &FileMetadata,
    bytes_per_row: usize,
    has_xor_diff: bool,
    page_records: &[PageStructureRecord],
) -> (v: Vec<String>)
    requires
        state.current_page * meta.page_length + state.col_offset_in_page + bytes_per_row <= u64::MAX,
    ensures
        v@.map_values(|s: String| s@) == spec_status_bar(
            state.current_page,
            state.col_offset_in_page,
            *meta,
            bytes_per_row as u64,
            has_xor_diff,
            state.diff_mode,
            state.scroll_velocity_mode@,
            match segment_index_at(state.col_offset_in_page, record_views(page_records@)) {
                Some(i) => Some((page_records@[i].name@, page_records@[i].start, page_records@[i].stop)),
                None => None,
            },
        ),
{
    proof {
        assert(state.current_page * meta.page_length >= 0) by (nonlinear_arith);
    }
    let lin = state.current_linear_offset(meta);
    let (block, page, _off) = HexTabState::offset_to_nand_coords(lin, meta);
    let col = state.col_offset_in_page;
    let pl = meta.page_length as u64;
    let bpr = bytes_per_row as u64;
    let end = if col + bpr <= pl { col + bpr } else { pl };
    let mut v: Vec<String> = Vec::new();
    let mut l: Vec<char> = Vec::new();
    push_str(&mut l, "Page: ");
    push_decimal(&mut l, state.current_page);
    push_str(&mut l, " / ");
    push_decimal(&mut l, meta.total_pages);
    push_str(&mut l, " | Block: ");
    push_decimal(&mut l, block);
    push_str(&mut l, " / ");
    push_decimal(&mut l, meta.total_blocks);
    push_str(&mut l, " | In-Block Page: ");
    push_decimal(&mut l, page);
    push_str(&mut l, " / ");
    push_decimal(&mut l, meta.block_size as u64);
    v.push(line_of(&l));
    let mut l: Vec<char> = Vec::new();
    push_str(&mut l, "Col: 0x");
    push_padded_hex(&mut l, col, 4);
    push_str(&mut l, "..0x");
    push_padded_hex(&mut l, end, 4);
    push_str(&mut l, " (");
    push_decimal(&mut l, bpr);
    push_str(&mut l, " B visible) / PageLen: ");
    push_decimal(&mut l, pl);
    v.push(line_of(&l));
    let mut l: Vec<char> = Vec::new();
    push_str(&mut l, "Linear: 0x");
    push_padded_hex(&mut l, lin, 8);
    push_str(&mut l, " / 0x");
    push_padded_hex(&mut l, meta.size, 8);
    v.push(line_of(&l));
    proof {
        lemma_segment_index_bounds(col, record_views(page_records@));
    }
    match HexTabState::find_segment_at_column(col, page_records) {
        Some(r) => {
            let mut l: Vec<char> = Vec::new();
            push_str(&mut l, "Region: ");
            push_str(&mut l, r.name.as_str());
            push_str(&mut l, " (0x");
            push_padded_hex(&mut l, r.start, 0);
            push_str(&mut l, "..0x");
            push_padded_hex(&mut l, r.stop, 0);
            push_str(&mut l, ")");
            v.push(line_of(&l));
        },
        None => {},
    }
    if has_xor_diff {
        v.push(diff_mode_label(state.diff_mode).to_string());
    }
    if state.scroll_velocity_mode.as_str().unicode_len() > 0 {
        v.push(state.scroll_velocity_mode.clone());
    }
    let ghost region = match segment_index_at(col, record_views(page_records@)) {
        Some(i) => Some((page_records@[i].name@, page_records@[i].start, page_records@[i].stop)),
        None => None,
    };
    assert(v@.map_values(|s: String| s@) =~= spec_status_bar(
        state.current_page,
        col,
        *meta,
        bpr,
        has_xor_diff,
        state.diff_mode,
        state.scroll_velocity_mode@,
        region,
    ));
    v
}

/// Colour of one bit in the miniature bit viewer: set bits white, clear bits
/// black; where the raw byte is known, a bit the XOR stage set is green and
/// one it cleared is red.
#[derive(Debug, Clone, Copy, PartialEq, Eq, Structural)]
pub enum BitColor {
    White,
    Black,
    Red,
    Green,
}

/// Whether bit `pos` (0 = least significant) of `b` is set.
pub open spec fn bit_set(b: u8, pos: u8) -> bool {
    (b >> pos) & 1 == 1
}

pub open spec fn bit_color(active: u8, raw: Option<u8>, pos: u8) -> BitColor {
    match raw {
        Some(r) => if bit_set(active, pos) {
            if bit_set(r, pos) { BitColor::White } else { BitColor::Green }
        } else {
            if bit_set(r, pos) { BitColor::Red } else { BitColor::Black }
        },
        None => if bit_set(active, pos) { BitColor::White } else { BitColor::Black },
    }
}

/// The raw byte compared against at column `i` (none for a row without raw
/// bytes).
pub open spec fn raw_for_diff(raw: Seq<u8>, i: int) -> Option<u8> {
    if raw.len() == 0 { None } else { byte_at(raw, i) }
}

/// The pixels of one row: eight per byte, most significant bit first.
pub open spec fn mini_row(active: Seq<u8>, raw: Seq<u8>, bytes_per_row: nat) -> Seq<BitColor> {
    Seq::new(
        bytes_per_row * 8,
        |c: int| bit_color(or_zero(byte_at(active, c / 8)), raw_for_diff(raw, c / 8), (7 - c % 8) as u8),
    )
}

/// The pixels of all rows, row after row.
pub open spec fn mini_pixels(rows: Seq<(Vec<u8>, Vec<u8>)>, bytes_per_row: nat) -> Seq<BitColor>
    decreases rows.len(),
{
    if rows.len() == 0 {
        Seq::empty()
    } else {
        mini_pixels(rows.drop_last(), bytes_per_row) + mini_row(rows.last().0@, rows.last().1@, bytes_per_row)
    }
}

fn bit_of(b: u8, pos: u8) -> (r: bool)
    requires
        pos < 8,
    ensures
        r == bit_set(b, pos),
{
    (b >> pos) & 1 == 1
}

fn pixel_of(active: u8, raw: Option<u8>, pos: u8) -> (c: BitColor)
    requires
        pos < 8,
    ensures
        c == bit_color(active, raw, pos),
{
    let a = bit_of(active, pos);
    match raw {
        Some(r) => {
            let rb = bit_of(r, pos);
            if a {
                if rb { BitColor::White } else { BitColor::Green }
            } else {
                if rb { BitColor::Red } else { BitColor::Black }
            }
        },
        None => if a { BitColor::White } else { BitColor::Black },
    }
}

fn push_row_pixels(pixels: &mut Vec<BitColor>, active: &[u8], raw: &[u8], bytes_per_row: usize)
    requires
        bytes_per_row * 8 <= usize::MAX,
    ensures
        final(pixels)@ == old(pixels)@ + mini_row(active@, raw@, bytes_per_row as nat),
{
    let has_raw = raw.len() > 0;
    let mut b: usize = 0;
    while b < bytes_per_row
        invariant
            b <= bytes_per_row,
            has_raw == (raw@.len() > 0),
            pixels@ =~= old(pixels)@ + mini_row(active@, raw@, bytes_per_row as nat).subrange(0, b * 8),
        decreases bytes_per_row - b,
    {
        let act = match get_byte(active, b) {
            Some(v) => v,
            None => 0,
        };
        let rb = if has_raw { get_byte(raw, b) } else { None };
        let mut k: u8 = 0;
        while k < 8
            invariant
                b < bytes_per_row,
                k <= 8,
                act == or_zero(byte_at(active@, b as int)),
                rb == raw_for_diff(raw@, b as int),
                pixels@ =~= old(pixels)@ + mini_row(active@, raw@, bytes_per_row as nat).subrange(0, b * 8 + k),
            decreases 8 - k,
        {
            let c = pixel_of(act, rb, 7 - k);
            pixels.push(c);
            proof {
                let row = mini_row(active@, raw@, bytes_per_row as nat);
                let j = b * 8 + k;
                assert(j / 8 == b as int && j % 8 == k as int);
                assert(row[j] == c);
                assert(row.subrange(0, j + 1) =~= row.subrange(0, j).push(c));
            }
            k = k + 1;
        }
        b = b + 1;
    }
    assert(mini_row(active@, raw@, bytes_per_row as nat).subrange(0, bytes_per_row * 8) =~= mini_row(
        active@,
        raw@,
        bytes_per_row as nat,
    ));
}

/// The pixels of the miniature bit viewer for the rows on screen (output and
/// raw bytes of each), `bytes_per_row * 8` per row.
pub fn mini_nand_pixels(row_data: &[(Vec<u8>, Vec<u8>)], bytes_per_row: usize) -> (pixels: Vec<BitColor>)
    requires
        bytes_per_row * 8 <= usize::MAX,
    ensures
        pixels@ == mini_pixels(row_data@, bytes_per_row as nat),
{
    let mut pixels: Vec<BitColor> = Vec::new();
    let mut r: usize = 0;
    while r < row_data.len()
        invariant
            r <= row_data@.len(),
            bytes_per_row * 8 <= usize::MAX,
            pixels@ == mini_pixels(row_data@.take(r as int), bytes_per_row as nat),
        decreases row_data@.len() - r,
    {
        push_row_pixels(&mut pixels, row_data[r].0.as_slice(), row_data[r].1.as_slice(), bytes_per_row);
        assert(row_data@.take(r + 1).drop_last() =~= row_data@.take(r as int));
        r = r + 1;
    }
    assert(row_data@.take(r as int) =~= row_data@);
    pixels
}

/// `Page: {page}, Col: 0x{col:04X} ({col}) — Click to jump`, the tooltip of
/// the miniature bit viewer for the byte under the pointer.
pub open spec fn spec_mini_viewer_tooltip(page: u64, col: u64) -> Seq<char> {
    "Page: "@ + dec_digits(page as nat) + ", Col: 0x"@ + padded_hex(col as nat, 4) + " ("@ + dec_digits(col as nat)
        + ") \u{2014} Click to jump"@
}

/// The tooltip of the miniature bit viewer.
pub fn mini_viewer_tooltip(page: u64, col: u64) -> (s: String)
    ensures
        s@ == spec_mini_viewer_tooltip(page, col),
{
    let mut out: Vec<char> = Vec::new();
    push_str(&mut out, "Page: ");
    push_decimal(&mut out, page);
    push_str(&mut out, ", Col: 0x");
    push_padded_hex(&mut out, col, 4);
    push_str(&mut out, " (");
    push_decimal(&mut out, col);
    push_str(&mut out, ") \u{2014} Click to jump");
    string_from_chars(out.as_slice())
}

/// Where the row of page `page` is read from and how many bytes: from the
/// row's first column, a full row but not past the end of the dump (the
/// count left being taken modulo 2^32); nothing for a page past the last or
/// a row starting at or past the end.
pub open spec fn spec_row_read(page: int, col: u64, page_length: u64, bytes_per_row: u32, total_pages: u64, total_size: u64) -> Option<
    (int, u32),
> {
    if page >= total_pages {
        None
    } else {
        let off = page * page_length + col;
        if off < total_size {
            let left = ((total_size - off) % 0x1_0000_0000) as u32;
            Some((off, if bytes_per_row <= left { bytes_per_row } else { left }))
        } else {
            None
        }
    }
}

/// Whether `bytes` is what a read of `len` bytes at `off` may give: nothing
/// (the read failed), or `len` bytes, the provider's own where it is exact.
pub open spec fn read_result_ok(bytes: Seq<u8>, len: u32, exact: bool, stream: spec_fn(int) -> u8, off: int) -> bool {
    bytes.len() == 0 || (bytes.len() == len && (exact ==> forall|j: int| 0 <= j < len ==> #[trigger] bytes[j] == stream(off + j)))
}

/// Reads `len` bytes at `off`, or nothing where the read fails.
fn read_or_empty<P: DumpDataProvider>(provider: &mut P, off: u64, len: u32) -> (bytes: Vec<u8>)
    requires
        old(provider).wf(),
        off + len <= u64::MAX,
    ensures
        final(provider).wf(),
        final(provider).exact() == old(provider).exact(),
        forall|p: int| #[trigger] final(provider).byte_at(p) == old(provider).byte_at(p),
        final(provider).spec_metadata() == old(provider).spec_metadata(),
        forall|o: int, l: int| #[trigger] final(provider).serves(o, l) == old(provider).serves(o, l),
        read_result_ok(bytes@, len, old(provider).exact(), |p: int| old(provider).byte_at(p), off as int),
        old(provider).exact() && old(provider).serves(off as int, len as int) ==> bytes@.len() == len,
        old(provider).exact() && !old(provider).serves(off as int, len as int) ==> bytes@.len() == 0,
{
    match provider.read_bytes(off, len) {
        Ok(v) => v,
        Err(_) => Vec::new(),
    }
}

/// The bytes of the rows on screen: for each of `visible_pages` pages from
/// the current one, the output bytes and (with a raw provider) the raw bytes
/// of its row; empty where the row lies past the dump or a read fails.
pub fn read_row_data<P: DumpDataProvider, R: DumpDataProvider>(
    state: &HexTabState,
    main: &mut P,
    raw: &mut Option<R>,
    visible_pages: usize,
    bytes_per_row: u32,
    page_length: u64,
    total_pages: u64,
    total_size: u64,
) -> (rows: Vec<(Vec<u8>, Vec<u8>)>)
    requires
        old(main).wf(),
        *old(raw) matches Some(r) ==> r.wf(),
        state.current_page + visible_pages <= u64::MAX,
        total_pages * page_length + state.col_offset_in_page <= u64::MAX,
    ensures
        final(main).wf(),
        final(main).exact() == old(main).exact(),
        forall|p: int| #[trigger] final(main).byte_at(p) == old(main).byte_at(p),
        (*final(raw)) is Some == (*old(raw)) is Some,
        *final(raw) matches Some(r) ==> r.wf(),
        rows@.len() == visible_pages,
        forall|i: int| 0 <= i < visible_pages ==> {
            let row = #[trigger] rows@[i];
            match spec_row_read(
                state.current_page + i,
                state.col_offset_in_page,
                page_length,
                bytes_per_row,
                total_pages,
                total_size,
            ) {
                None => row.0@.len() == 0 && row.1@.len() == 0,
                Some((off, len)) => {
                    &&& read_result_ok(row.0@, len, old(main).exact(), |p: int| old(main).byte_at(p), off)
                    &&& match *old(raw) {
                        Some(r) => read_result_ok(row.1@, len, r.exact(), |p: int| r.byte_at(p), off),
                        None => row.1@.len() == 0,
                    }
                },
            }
        },
{
    let mut rows: Vec<(Vec<u8>, Vec<u8>)> = Vec::new();
    let col = state.col_offset_in_page;
    let mut i: usize = 0;
    while i < visible_pages
        invariant
            i <= visible_pages,
            col == state.col_offset_in_page,
            state.current_page + visible_pages <= u64::MAX,
            total_pages * page_length + col <= u64::MAX,
            main.wf(),
            main.exact() == old(main).exact(),
            forall|p: int| #[trigger] main.byte_at(p) == old(main).byte_at(p),
            (*raw) is Some == (*old(raw)) is Some,
            *raw matches Some(r) ==> r.wf(),
            *old(raw) matches Some(r0) ==> (*raw matches Some(r) && r.exact() == r0.exact() && forall|p: int|
                #[trigger] r.byte_at(p) == r0.byte_at(p)),
            rows@.len() == i,
            forall|k: int| 0 <= k < i ==> {
                let row = #[trigger] rows@[k];
                match spec_row_read(state.current_page + k, col, page_length, bytes_per_row, total_pages, total_size) {
                    None => row.0@.len() == 0 && row.1@.len() == 0,
                    Some((off, len)) => {
                        &&& read_result_ok(row.0@, len, old(main).exact(), |p: int| old(main).byte_at(p), off)
                        &&& match *old(raw) {
                            Some(r) => read_result_ok(row.1@, len, r.exact(), |p: int| r.byte_at(p), off),
                            None => row.1@.len() == 0,
                        }
                    },
                }
            },
        decreases visible_pages - i,
    {
        let page = state.current_page + i as u64;
        if page >= total_pages {
            rows.push((Vec::new(), Vec::new()));
        } else {
            proof {
                assert(page * page_length <= total_pages * page_length) by (nonlinear_arith)
                    requires
                        page < total_pages,
                ;
            }
            let off = page * page_length + col;
            if off < total_size {
                let left = ((total_size - off) % 0x1_0000_0000) as u32;
                let len = if bytes_per_row <= left { bytes_per_row } else { left };
                let act = read_or_empty(main, off, len);
                let rb = match raw {
                    Some(r) => read_or_empty(r, off, len),
                    None => Vec::new(),
                };
                rows.push((act, rb));
            } else {
                rows.push((Vec::new(), Vec::new()));
            }
        }
        i = i + 1;
    }
    rows
}

} // verus!
