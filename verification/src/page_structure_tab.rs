//! Page structure editor state: the byte layout of a NAND page as an ordered
//! list of typed segments, with conversion to hex-viewer records and to and
//! from `.case` XML.

use vstd::prelude::*;
use crate::hex_tab::{
    PageSegmentKind, PageStructureRecord, RecordView, record_views, parse_case_file, spec_parse_case_file,
};
use crate::text::{chars_of, string_from_chars, push_str, push_decimal, dec_digits, push_chars, spec_trim, trim_chars};

verus! {

/// The logical role of a byte range within a NAND page
#[derive(Debug, Clone, Copy, PartialEq, Eq, Structural)]
pub enum SegmentKind {
    Data,
    Ecc,
    Sa,
    SaEcc,
    Unknown,
}

/// Label of a segment kind (also its name in `.case` XML).
pub open spec fn kind_label(k: SegmentKind) -> Seq<char> {
    match k {
        SegmentKind::Data => "DATA"@,
        SegmentKind::Ecc => "ECC"@,
        SegmentKind::Sa => "SA"@,
        SegmentKind::SaEcc => "SA-ECC"@,
        SegmentKind::Unknown => "UNKNOWN"@,
    }
}

/// Hex-viewer kind of a segment kind.
pub open spec fn hex_kind(k: SegmentKind) -> PageSegmentKind {
    match k {
        SegmentKind::Data => PageSegmentKind::Data,
        SegmentKind::Ecc => PageSegmentKind::Ecc,
        SegmentKind::Sa => PageSegmentKind::SpareArea,
        SegmentKind::SaEcc => PageSegmentKind::SpareArea,
        SegmentKind::Unknown => PageSegmentKind::Other,
    }
}

/// What `str::to_uppercase` returns for the given characters.
pub uninterp spec fn unicode_uppercase(s: Seq<char>) -> Seq<char>;

/// ASCII upper-casing of one character.
pub open spec fn ascii_upper_char(c: char) -> char {
    if 'a' <= c && c <= 'z' { ((c as u32) - 32) as char } else { c }
}

/// ASCII upper-casing of a text.
pub open spec fn ascii_upper(s: Seq<char>) -> Seq<char> {
    s.map_values(|c: char| ascii_upper_char(c))
}

/// Calls `str::to_uppercase`, which maps each character to its Unicode
/// uppercase form; on ASCII text that turns `a`..`z` into `A`..`Z` and keeps
/// every other character. What it does with other characters is left to the
/// name `unicode_uppercase`.
#[verifier::external_body]
fn to_uppercase(s: &str) -> (r: String)
    ensures
        r@ == unicode_uppercase(s@),
        crate::search::all_ascii(s@) ==> r@ == ascii_upper(s@),
{
    s.to_uppercase()
}

/// Segment kind of an upper-cased `.case` name.
pub open spec fn kind_of_upper(u: Seq<char>) -> SegmentKind {
    if u == "DATA"@ || u == "DATA AREA"@ {
        SegmentKind::Data
    } else if u == "ECC"@ {
        SegmentKind::Ecc
    } else if u == "SA"@ || u == "SPARE"@ || u == "OOB"@ {
        SegmentKind::Sa
    } else if u == "SA-ECC"@ || u == "SAECC"@ {
        SegmentKind::SaEcc
    } else {
        SegmentKind::Unknown
    }
}

/// Segment kind named in `.case` XML (compared upper-cased; an ASCII name
/// is upper-cased character by character).
pub open spec fn kind_of_case_name(s: Seq<char>) -> SegmentKind {
    if crate::search::all_ascii(s) {
        kind_of_upper(ascii_upper(s))
    } else {
        kind_of_upper(unicode_uppercase(s))
    }
}

impl SegmentKind {
    /// All variants in display order
    pub fn all() -> (v: Vec<SegmentKind>)
        ensures
            v@ == seq![SegmentKind::Data, SegmentKind::Ecc, SegmentKind::Sa, SegmentKind::SaEcc, SegmentKind::Unknown],
    {
        let v = vec![SegmentKind::Data, SegmentKind::Ecc, SegmentKind::Sa, SegmentKind::SaEcc, SegmentKind::Unknown];
        assert(v@ =~= seq![SegmentKind::Data, SegmentKind::Ecc, SegmentKind::Sa, SegmentKind::SaEcc, SegmentKind::Unknown]);
        v
    }

    /// Human-readable label used in the UI
    pub fn label(self) -> (s: &'static str)
        ensures
            s@ == kind_label(self),
    {
        match self {
            SegmentKind::Data => "DATA",
            SegmentKind::Ecc => "ECC",
            SegmentKind::Sa => "SA",
            SegmentKind::SaEcc => "SA-ECC",
            SegmentKind::Unknown => "UNKNOWN",
        }
    }

    /// Name written into `.case` XML
    pub fn case_name(self) -> (s: &'static str)
        ensures
            s@ == kind_label(self),
    {
        self.label()
    }

    /// Display color as red, green and blue.
    pub fn color_rgb(self) -> (c: (u8, u8, u8))
        ensures
            c == match self {
                SegmentKind::Data => (59u8, 130u8, 246u8),
                SegmentKind::Ecc => (249u8, 115u8, 22u8),
                SegmentKind::Sa => (34u8, 197u8, 94u8),
                SegmentKind::SaEcc => (20u8, 184u8, 166u8),
                SegmentKind::Unknown => (100u8, 100u8, 100u8),
            },
    {
        match self {
            SegmentKind::Data => (59, 130, 246),
            SegmentKind::Ecc => (249, 115, 22),
            SegmentKind::Sa => (34, 197, 94),
            SegmentKind::SaEcc => (20, 184, 166),
            SegmentKind::Unknown => (100, 100, 100),
        }
    }

    /// Convert to the `PageSegmentKind` used by `hex_tab`
    pub fn to_hex_kind(self) -> (k: PageSegmentKind)
        ensures
            k == hex_kind(self),
    {
        match self {
            SegmentKind::Data => PageSegmentKind::Data,
            SegmentKind::Ecc => PageSegmentKind::Ecc,
            SegmentKind::Sa => PageSegmentKind::SpareArea,
            SegmentKind::SaEcc => PageSegmentKind::SpareArea,
            SegmentKind::Unknown => PageSegmentKind::Other,
        }
    }

    /// Parse from a `.case` XML name
    pub fn from_case_name(s: &str) -> (k: SegmentKind)
        ensures
            k == kind_of_case_name(s@),
    {
        let u = to_uppercase(s);
        let c = chars_of(u.as_str());
        let cs = c.as_slice();
        if crate::text::chars_equal(cs, "DATA") || crate::text::chars_equal(cs, "DATA AREA") {
            SegmentKind::Data
        } else if crate::text::chars_equal(cs, "ECC") {
            SegmentKind::Ecc
        } else if crate::text::chars_equal(cs, "SA") || crate::text::chars_equal(cs, "SPARE")
            || crate::text::chars_equal(cs, "OOB") {
            SegmentKind::Sa
        } else if crate::text::chars_equal(cs, "SA-ECC") || crate::text::chars_equal(cs, "SAECC") {
            SegmentKind::SaEcc
        } else {
            SegmentKind::Unknown
        }
    }
}

/// A single typed byte range inside one NAND page
#[derive(Debug, Clone)]
pub struct PageSegment {
    pub kind: SegmentKind,
    /// Size in bytes of this segment
    pub size: u32,
    /// Temporary UI edit buffer for the size field
    pub size_edit: String,
}

impl PageSegment {
    pub fn new(kind: SegmentKind, size: u32) -> (s: PageSegment)
        ensures
            s.kind == kind,
            s.size == size,
            s.size_edit@ == dec_digits(size as nat),
    {
        PageSegment { kind, size, size_edit: decimal(size as u64) }
    }

    pub fn sync_edit_from_size(&mut self)
        ensures
            final(self).kind == old(self).kind,
            final(self).size == old(self).size,
            final(self).size_edit@ == dec_digits(old(self).size as nat),
    {
        self.size_edit = decimal(self.size as u64);
    }
}

fn decimal(n: u64) -> (s: String)
    ensures
        s@ == dec_digits(n as nat),
{
    let mut v: Vec<char> = Vec::new();
    push_decimal(&mut v, n);
    assert(v@ =~= dec_digits(n as nat));
    string_from_chars(v.as_slice())
}

/// Kinds and sizes of segments.
pub open spec fn seg_views(segs: Seq<PageSegment>) -> Seq<(SegmentKind, u32)> {
    segs.map_values(|s: PageSegment| (s.kind, s.size))
}

/// Sum of the sizes of the first `n` segments.
pub open spec fn size_sum(segs: Seq<(SegmentKind, u32)>, n: int) -> int
    decreases n,
{
    if n <= 0 || n > segs.len() {
        0
    } else {
        size_sum(segs, n - 1) + segs[n - 1].1
    }
}

/// The segments with a non-zero size, in order.
pub open spec fn nonempty(segs: Seq<(SegmentKind, u32)>) -> Seq<(SegmentKind, u32)> {
    segs.filter(|s: (SegmentKind, u32)| s.1 > 0)
}

/// Hex-viewer records of the segments: each non-empty segment covers the
/// bytes after those before it.
pub open spec fn segment_records(segs: Seq<(SegmentKind, u32)>) -> Seq<RecordView>
    decreases segs.len(),
{
    if segs.len() == 0 {
        seq![]
    } else {
        let prev = segment_records(segs.drop_last());
        let s = segs.last();
        let start = size_sum(segs, segs.len() - 1);
        if s.1 == 0 {
            prev
        } else {
            prev.push((kind_label(s.0), start as u64, (start + s.1 - 1) as u64, hex_kind(s.0)))
        }
    }
}

/// The `.case` line of one record.
pub open spec fn record_line(name: Seq<char>, start: int, stop: int) -> Seq<char> {
    "    <Record StructureDefinitionName=\""@ + name + "\" StartAddress=\""@ + dec_digits(start as nat)
        + "\" StopAddress=\""@ + dec_digits(stop as nat) + "\" />\n"@
}

/// The record lines of the segments.
pub open spec fn record_lines(segs: Seq<(SegmentKind, u32)>) -> Seq<char>
    decreases segs.len(),
{
    if segs.len() == 0 {
        seq![]
    } else {
        let prev = record_lines(segs.drop_last());
        let s = segs.last();
        let start = size_sum(segs, segs.len() - 1);
        if s.1 == 0 {
            prev
        } else {
            prev + record_line(kind_label(s.0), start, start + s.1 - 1)
        }
    }
}

/// The `.case` XML of the segments: one record per non-empty segment, then a
/// whole-`Page` record and the page size.
pub open spec fn case_xml(segs: Seq<(SegmentKind, u32)>) -> Seq<char> {
    let total = size_sum(segs, segs.len() as int);
    "<?xml version=\"1.0\"?>\n<Project>\n  <Records>\n"@ + record_lines(segs) + "  </Records>\n  <Records>\n"@
        + "    <Record StructureDefinitionName=\"Page\" StartAddress=\"0\" StopAddress=\""@ + dec_digits(
        (if total >= 1 { total - 1 } else { 0 }) as nat,
    ) + "\" />\n"@ + "  </Records>\n  <Page_size>"@ + dec_digits(total as nat) + "</Page_size>\n</Project>"@
}

/// Size of the segment a record describes.
pub open spec fn record_size(r: RecordView) -> u32 {
    (r.2 - r.1 + 1) as u32
}

/// The segments imported from records.
pub open spec fn imported_segments(rs: Seq<RecordView>) -> Seq<(SegmentKind, u32)> {
    rs.map_values(|r: RecordView| (kind_of_case_name(r.0), record_size(r)))
}

/// Every record of the XML has a start no greater than its stop, and a size
/// that fits 64 bits.
pub open spec fn importable(xml: Seq<char>) -> bool {
    forall|i: int| 0 <= i < spec_parse_case_file(xml).len() ==> {
        let r = #[trigger] spec_parse_case_file(xml)[i];
        r.1 <= r.2 && r.2 - r.1 + 1 <= u64::MAX
    }
}

/// Shared state for the Page Structure Editor tab.
pub struct PageStructureTabState {
    /// Ordered list of page segments
    pub segments: Vec<PageSegment>,
    /// Expected total page size (synced from the active workflow Input node)
    pub target_page_size: u32,
    /// Path for import/export
    pub case_file_path: String,
    /// Status / feedback message shown in the UI
    pub status_msg: String,
    /// Whether the status message is an error (red) or info (green)
    pub status_is_error: bool,
    /// Generated case XML (cached, refreshed after each edit)
    pub case_xml_cache: String,
    /// Whether the XML cache must be rebuilt
    pub xml_dirty: bool,
    /// Index of the segment currently being dragged (resize handle)
    pub drag_segment: Option<usize>,
}

impl PageStructureTabState {
    /// Whether the cached XML must be rebuilt.
    pub open spec fn dirty(&self) -> bool {
        self.xml_dirty
    }

    /// The cache holds the XML of the segments whenever it is clean.
    pub open spec fn wf(&self) -> bool {
        !self.xml_dirty ==> self.case_xml_cache@ == case_xml(seg_views(self.segments@))
    }

    pub fn new() -> (s: PageStructureTabState)
        ensures
            s.wf(),
            s.segments@.len() == 0,
            s.target_page_size == 0,
            s.case_file_path@ == "download.case"@,
            s.status_msg@ == Seq::<char>::empty(),
            !s.status_is_error,
            s.dirty(),
    {
        PageStructureTabState {
            segments: Vec::new(),
            target_page_size: 0,
            case_file_path: string_from_chars(chars_of("download.case").as_slice()),
            status_msg: String::new(),
            status_is_error: false,
            case_xml_cache: String::new(),
            xml_dirty: true,
            drag_segment: None,
        }
    }

    /// Total byte size of all segments
    pub fn total_size(&self) -> (t: u32)
        requires
            size_sum(seg_views(self.segments@), self.segments@.len() as int) <= u32::MAX,
        ensures
            t == size_sum(seg_views(self.segments@), self.segments@.len() as int),
    {
        self.segment_start(self.segments.len())
    }

    /// Compute start byte offset of segment at `index`
    pub fn segment_start(&self, index: usize) -> (t: u32)
        requires
            index <= self.segments@.len(),
            size_sum(seg_views(self.segments@), index as int) <= u32::MAX,
        ensures
            t == size_sum(seg_views(self.segments@), index as int),
    {
        let ghost v = seg_views(self.segments@);
        let mut sum: u32 = 0;
        let mut i: usize = 0;
        while i < index
            invariant
                i <= index,
                index <= self.segments@.len(),
                v == seg_views(self.segments@),
                size_sum(v, index as int) <= u32::MAX,
                sum == size_sum(v, i as int),
            decreases index - i,
        {
            proof {
                lemma_size_sum_mono(v, i + 1, index as int);
            }
            sum = sum + self.segments[i].size;
            i = i + 1;
        }
        sum
    }

    /// Convert segments into `PageStructureRecord` list for the Hex Viewer
    pub fn to_page_records(&self) -> (records: Vec<PageStructureRecord>)
        requires
            size_sum(seg_views(self.segments@), self.segments@.len() as int) <= u64::MAX,
        ensures
            record_views(records@) == segment_records(seg_views(self.segments@)),
    {
        let ghost v = seg_views(self.segments@);
        let mut records: Vec<PageStructureRecord> = Vec::new();
        let mut offset: u64 = 0;
        let mut i: usize = 0;
        while i < self.segments.len()
            invariant
                i <= self.segments@.len(),
                v == seg_views(self.segments@),
                offset == size_sum(v, i as int),
                size_sum(v, v.len() as int) <= u64::MAX,
                record_views(records@) == segment_records(v.subrange(0, i as int)),
            decreases self.segments@.len() - i,
        {
            let seg = &self.segments[i];
            let ghost sub = v.subrange(0, i + 1);
            proof {
                assert(sub.drop_last() =~= v.subrange(0, i as int));
                lemma_size_sum_prefix(v, i + 1);
                lemma_size_sum_prefix(v, i as int);
                lemma_size_sum_mono(v, i + 1, v.len() as int);
            }
            if seg.size != 0 {
                let name = string_from_chars(chars_of(seg.kind.case_name()).as_slice());
                let rec = PageStructureRecord {
                    name,
                    start: offset,
                    stop: offset + seg.size as u64 - 1,
                    kind: seg.kind.to_hex_kind(),
                };
                let ghost before = records@;
                records.push(rec);
                assert(record_views(records@) =~= record_views(before).push(rec@));
            }
            offset = offset + seg.size as u64;
            i = i + 1;
        }
        assert(v.subrange(0, i as int) =~= v);
        records
    }

    /// Import segments from a `.case` XML string: one segment per record (its
    /// kind from the record's name, its size from its address range). Without
    /// any record the segments stay and an error is reported.
    pub fn import_from_case_xml(&mut self, xml: &str)
        requires
            old(self).wf(),
            importable(xml@),
        ensures
            final(self).wf(),
            spec_parse_case_file(xml@).len() == 0 ==> {
                &&& final(self).segments == old(self).segments
                &&& final(self).status_msg@ == "No valid <Record> entries found in XML."@
                &&& final(self).status_is_error
            },
            spec_parse_case_file(xml@).len() > 0 ==> {
                &&& seg_views(final(self).segments@) == imported_segments(spec_parse_case_file(xml@))
                &&& forall|j: int| 0 <= j < final(self).segments@.len() ==> (#[trigger] final(self).segments@[j]).size_edit@
                    == dec_digits(final(self).segments@[j].size as nat)
                &&& final(self).status_msg@ == "Imported "@ + dec_digits(spec_parse_case_file(xml@).len())
                    + " segments."@
                &&& !final(self).status_is_error
                &&& final(self).dirty()
            },
            final(self).target_page_size == old(self).target_page_size,
            final(self).case_file_path@ == old(self).case_file_path@,
    {
        let records = parse_case_file(xml);
        if records.len() == 0 {
            self.status_msg = string_from_chars(chars_of("No valid <Record> entries found in XML.").as_slice());
            self.status_is_error = true;
            return;
        }
        let ghost rv = record_views(records@);
        let mut segments: Vec<PageSegment> = Vec::new();
        let mut i: usize = 0;
        while i < records.len()
            invariant
                i <= records@.len(),
                rv == record_views(records@),
                rv == spec_parse_case_file(xml@),
                importable(xml@),
                seg_views(segments@) == imported_segments(rv.subrange(0, i as int)),
                forall|j: int| 0 <= j < segments@.len() ==> (#[trigger] segments@[j]).size_edit@ == dec_digits(
                    segments@[j].size as nat,
                ),
            decreases records@.len() - i,
        {
            let rec = &records[i];
            assert(rv[i as int] == rec@);
            assert(rec.start <= rec.stop && rec.stop - rec.start + 1 <= u64::MAX);
            let size = #[verifier::truncate] ((rec.stop - rec.start + 1) as u32);
            let kind = SegmentKind::from_case_name(rec.name.as_str());
            let ghost before = segments@;
            segments.push(PageSegment::new(kind, size));
            proof {
                assert(record_size(rec@) == size);
                assert(rv.subrange(0, i + 1) =~= rv.subrange(0, i as int).push(rv[i as int]));
                assert(seg_views(segments@) =~= seg_views(before).push((kind, size)));
                assert(seg_views(segments@) =~= imported_segments(rv.subrange(0, i + 1)));
            }
            i = i + 1;
        }
        assert(rv.subrange(0, i as int) =~= rv);
        self.segments = segments;
        self.xml_dirty = true;
        let mut msg = chars_of("Imported ");
        push_decimal(&mut msg, records.len() as u64);
        push_str(&mut msg, " segments.");
        self.status_msg = string_from_chars(msg.as_slice());
        self.status_is_error = false;
    }

    /// Generate `.case` XML from current segments; the XML is kept as the
    /// cached XML.
    pub fn generate_case_xml(&mut self) -> (xml: &str)
        requires
            size_sum(seg_views(old(self).segments@), old(self).segments@.len() as int) <= u32::MAX,
        ensures
            final(self).wf(),
            !final(self).dirty(),
            xml@ == case_xml(seg_views(old(self).segments@)),
            final(self).case_xml_cache@ == xml@,
            final(self).segments == old(self).segments,
            final(self).target_page_size == old(self).target_page_size,
            final(self).case_file_path == old(self).case_file_path,
            final(self).status_msg == old(self).status_msg,
            final(self).status_is_error == old(self).status_is_error,
    {
        let ghost v = seg_views(self.segments@);
        let page_size = self.total_size();
        let mut xml = chars_of("<?xml version=\"1.0\"?>\n<Project>\n  <Records>\n");
        let ghost head = xml@;
        let mut offset: u64 = 0;
        let mut i: usize = 0;
        while i < self.segments.len()
            invariant
                i <= self.segments@.len(),
                v == seg_views(self.segments@),
                offset == size_sum(v, i as int),
                size_sum(v, v.len() as int) <= u32::MAX,
                xml@ == head + record_lines(v.subrange(0, i as int)),
            decreases self.segments@.len() - i,
        {
            let seg = &self.segments[i];
            let ghost sub = v.subrange(0, i + 1);
            proof {
                assert(sub.drop_last() =~= v.subrange(0, i as int));
                lemma_size_sum_prefix(v, i + 1);
                lemma_size_sum_prefix(v, i as int);
                lemma_size_sum_mono(v, i + 1, v.len() as int);
            }
            if seg.size != 0 {
                let stop = offset + seg.size as u64 - 1;
                let ghost before = xml@;
                push_str(&mut xml, "    <Record StructureDefinitionName=\"");
                push_str(&mut xml, seg.kind.case_name());
                push_str(&mut xml, "\" StartAddress=\"");
                push_decimal(&mut xml, offset);
                push_str(&mut xml, "\" StopAddress=\"");
                push_decimal(&mut xml, stop);
                push_str(&mut xml, "\" />\n");
                assert(xml@ =~= before + record_line(kind_label(seg.kind), offset as int, stop as int));
            }
            offset = offset + seg.size as u64;
            i = i + 1;
        }
        assert(v.subrange(0, i as int) =~= v);
        push_str(&mut xml, "  </Records>\n  <Records>\n");
        push_str(&mut xml, "    <Record StructureDefinitionName=\"Page\" StartAddress=\"0\" StopAddress=\"");
        push_decimal(&mut xml, if page_size >= 1 { (page_size - 1) as u64 } else { 0 });
        push_str(&mut xml, "\" />\n");
        push_str(&mut xml, "  </Records>\n  <Page_size>");
        push_decimal(&mut xml, page_size as u64);
        push_str(&mut xml, "</Page_size>\n</Project>");
        assert(xml@ =~= case_xml(v));
        self.case_xml_cache = string_from_chars(xml.as_slice());
        self.xml_dirty = false;
        self.case_xml_cache.as_str()
    }

    /// The path to load from or save to: the entered path, trimmed. Without
    /// one the status asks for a path and there is nothing to do.
    pub fn io_path(&mut self) -> (p: Option<String>)
        requires
            old(self).wf(),
        ensures
            final(self).wf(),
            seg_views(final(self).segments@) == seg_views(old(self).segments@),
            final(self).case_file_path@ == old(self).case_file_path@,
            final(self).xml_dirty == old(self).xml_dirty,
            spec_trim(old(self).case_file_path@).len() == 0 ==> p is None && final(self).status_msg@
                == "Enter a file path first."@ && final(self).status_is_error,
            spec_trim(old(self).case_file_path@).len() > 0 ==> (p matches Some(s) && s@ == spec_trim(
                old(self).case_file_path@,
            ) && final(self).status_msg@ == old(self).status_msg@ && final(self).status_is_error
                == old(self).status_is_error),
    {
        let raw = chars_of(self.case_file_path.as_str());
        let t = trim_chars(raw.as_slice());
        if t.len() == 0 {
            self.status_msg = string_from_chars(chars_of("Enter a file path first.").as_slice());
            self.status_is_error = true;
            return None;
        }
        Some(string_from_chars(t.as_slice()))
    }

    /// Takes the outcome of reading the `.case` file at `path`: its content
    /// is imported, a read error is reported.
    pub fn finish_load(&mut self, path: &str, read: Result<String, String>)
        requires
            old(self).wf(),
            read matches Ok(c) ==> importable(c@),
        ensures
            final(self).wf(),
            read matches Err(e) ==> {
                &&& seg_views(final(self).segments@) == seg_views(old(self).segments@)
                &&& final(self).status_msg@ == "Failed to read "@ + path@ + ": "@ + e@
                &&& final(self).status_is_error
            },
            read matches Ok(c) ==> {
                &&& spec_parse_case_file(c@).len() == 0 ==> seg_views(final(self).segments@) == seg_views(
                    old(self).segments@,
                ) && final(self).status_msg@ == "No valid <Record> entries found in XML."@
                    && final(self).status_is_error
                &&& spec_parse_case_file(c@).len() > 0 ==> seg_views(final(self).segments@) == imported_segments(
                    spec_parse_case_file(c@),
                ) && final(self).status_msg@ == "Imported "@ + dec_digits(spec_parse_case_file(c@).len())
                    + " segments."@ && !final(self).status_is_error
            },
    {
        match read {
            Ok(content) => self.import_from_case_xml(content.as_str()),
            Err(e) => {
                let mut msg = chars_of("Failed to read ");
                push_str(&mut msg, path);
                push_str(&mut msg, ": ");
                push_str(&mut msg, e.as_str());
                self.status_msg = string_from_chars(msg.as_slice());
                self.status_is_error = true;
            },
        }
    }

    /// Takes the outcome of writing the generated XML to `path`: success or
    /// the write error is reported.
    pub fn finish_save(&mut self, path: &str, write_error: Option<String>)
        requires
            old(self).wf(),
        ensures
            final(self).wf(),
            seg_views(final(self).segments@) == seg_views(old(self).segments@),
            write_error matches Some(e) ==> (final(self).status_msg@ == "Failed to write "@ + path@ + ": "@ + e@
                && final(self).status_is_error),
            write_error is None ==> final(self).status_msg@ == "Saved to "@ + path@ && !final(self).status_is_error,
    {
        match write_error {
            Some(e) => {
                let mut msg = chars_of("Failed to write ");
                push_str(&mut msg, path);
                push_str(&mut msg, ": ");
                push_str(&mut msg, e.as_str());
                self.status_msg = string_from_chars(msg.as_slice());
                self.status_is_error = true;
            },
            None => {
                let mut msg = chars_of("Saved to ");
                push_str(&mut msg, path);
                self.status_msg = string_from_chars(msg.as_slice());
                self.status_is_error = false;
            },
        }
    }

    /// Adds a segment of the given kind; with a target page size it takes
    /// the bytes still missing (0 when the segments already reach it).
    pub fn add_segment(&mut self, kind: SegmentKind)
        requires
            size_sum(seg_views(old(self).segments@), old(self).segments@.len() as int) <= u32::MAX,
        ensures
            seg_views(final(self).segments@) == seg_views(old(self).segments@).push(
                (
                    kind,
                    (if old(self).target_page_size > 0 && old(self).target_page_size >= size_sum(
                        seg_views(old(self).segments@),
                        old(self).segments@.len() as int,
                    ) {
                        old(self).target_page_size - size_sum(
                            seg_views(old(self).segments@),
                            old(self).segments@.len() as int,
                        )
                    } else {
                        0
                    }) as u32,
                ),
            ),
            final(self).dirty(),
            final(self).wf(),
            final(self).target_page_size == old(self).target_page_size,
    {
        let total = self.total_size();
        let remaining = if self.target_page_size > 0 && self.target_page_size >= total {
            self.target_page_size - total
        } else {
            0
        };
        let ghost before = self.segments@;
        self.segments.push(PageSegment::new(kind, remaining));
        assert(seg_views(self.segments@) =~= seg_views(before).push((kind, remaining)));
        self.xml_dirty = true;
    }

    /// Removes segment `i`.
    pub fn remove_segment(&mut self, i: usize)
        requires
            i < old(self).segments@.len(),
        ensures
            seg_views(final(self).segments@) == seg_views(old(self).segments@).remove(i as int),
            final(self).dirty(),
            final(self).wf(),
    {
        let ghost before = self.segments@;
        let _ = self.segments.remove(i);
        assert(seg_views(self.segments@) =~= seg_views(before).remove(i as int));
        self.xml_dirty = true;
    }

    /// Swaps segments `i` and `j` (moving a segment up or down).
    pub fn swap_segments(&mut self, i: usize, j: usize)
        requires
            i < old(self).segments@.len(),
            j < old(self).segments@.len(),
        ensures
            seg_views(final(self).segments@) == seg_views(old(self).segments@).update(
                i as int,
                seg_views(old(self).segments@)[j as int],
            ).update(j as int, seg_views(old(self).segments@)[i as int]),
            final(self).dirty(),
            final(self).wf(),
    {
        let ghost before = seg_views(self.segments@);
        let a2 = PageSegment {
            kind: self.segments[i].kind,
            size: self.segments[i].size,
            size_edit: self.segments[i].size_edit.clone(),
        };
        let b2 = PageSegment {
            kind: self.segments[j].kind,
            size: self.segments[j].size,
            size_edit: self.segments[j].size_edit.clone(),
        };
        proof {
            assert((a2.kind, a2.size) == before[i as int]);
            assert((b2.kind, b2.size) == before[j as int]);
        }
        self.segments.set(i, b2);
        self.segments.set(j, a2);
        assert(seg_views(self.segments@) =~= before.update(i as int, before[j as int]).update(
            j as int,
            before[i as int],
        ));
        self.xml_dirty = true;
    }

    /// Applies the size typed for segment `i` when it is a valid `u32`.
    pub fn apply_size_edit(&mut self, i: usize)
        requires
            i < old(self).segments@.len(),
            old(self).wf(),
        ensures
            match crate::text::parse_unsigned(old(self).segments@[i as int].size_edit@, u32::MAX as int) {
                Some(v) => seg_views(final(self).segments@) == seg_views(old(self).segments@).update(
                    i as int,
                    (old(self).segments@[i as int].kind, v as u32),
                ) && final(self).dirty(),
                None => seg_views(final(self).segments@) == seg_views(old(self).segments@),
            },
            final(self).wf(),
    {
        let edit = chars_of(self.segments[i].size_edit.as_str());
        match crate::text::parse_unsigned_chars(edit.as_slice(), 0xFFFF_FFFF) {
            Some(v) => {
                let ghost before = seg_views(self.segments@);
                let seg = PageSegment {
                    kind: self.segments[i].kind,
                    size: v as u32,
                    size_edit: self.segments[i].size_edit.clone(),
                };
                self.segments.set(i, seg);
                assert(seg_views(self.segments@) =~= before.update(i as int, (before[i as int].0, v as u32)));
                self.xml_dirty = true;
            },
            None => {},
        }
    }
}

pub(crate) proof fn lemma_size_sum_mono(v: Seq<(SegmentKind, u32)>, a: int, b: int)
    requires
        0 <= a <= b <= v.len(),
    ensures
        size_sum(v, a) <= size_sum(v, b),
    decreases b - a,
{
    if a < b {
        lemma_size_sum_mono(v, a, b - 1);
    }
}

proof fn lemma_size_sum_prefix(v: Seq<(SegmentKind, u32)>, n: int)
    requires
        0 <= n <= v.len(),
    ensures
        size_sum(v.subrange(0, n), n) == size_sum(v, n),
        size_sum(v, n) <= n * 0xFFFF_FFFF,
        forall|k: int| 0 <= k <= n ==> size_sum(v.subrange(0, n), k) == size_sum(v, k),
    decreases n,
{
    if n > 0 {
        lemma_size_sum_prefix(v, n - 1);
        assert forall|k: int| 0 <= k <= n implies size_sum(v.subrange(0, n), k) == size_sum(v, k) by {
            lemma_size_sum_sub(v, n, k);
        }
    }
}

pub(crate) proof fn lemma_size_sum_sub(v: Seq<(SegmentKind, u32)>, n: int, k: int)
    requires
        0 <= k <= n <= v.len(),
    ensures
        size_sum(v.subrange(0, n), k) == size_sum(v, k),
    decreases k,
{
    if k > 0 {
        lemma_size_sum_sub(v, n, k - 1);
    }
}

/// Whether every record of the XML can be imported (start no greater than
/// stop, size within 64 bits): the condition `import_from_case_xml` needs.
pub fn case_xml_importable(xml: &str) -> (b: bool)
    ensures
        b == importable(xml@),
{
    let records = parse_case_file(xml);
    let mut i: usize = 0;
    while i < records.len()
        invariant
            i <= records@.len(),
            record_views(records@) == spec_parse_case_file(xml@),
            forall|k: int| 0 <= k < i ==> {
                let r = #[trigger] spec_parse_case_file(xml@)[k];
                r.1 <= r.2 && r.2 - r.1 + 1 <= u64::MAX
            },
        decreases records@.len() - i,
    {
        let r = &records[i];
        assert(spec_parse_case_file(xml@)[i as int] == r@);
        if r.start > r.stop || (r.start == 0 && r.stop == u64::MAX) {
            return false;
        }
        i = i + 1;
    }
    true
}

} // verus!
