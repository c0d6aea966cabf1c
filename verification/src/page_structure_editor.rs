//! The editor side of the page-structure tab: the size indicator against the
//! target page size, the segment table (byte ranges, kind and size edits,
//! target edits), resizing two neighbours by dragging the boundary between
//! them on the layout bar, and the bar's labels and tooltips.

use vstd::prelude::*;
use crate::page_structure_tab::{
    PageSegment, PageStructureTabState, SegmentKind, kind_label, seg_views, size_sum, lemma_size_sum_mono,
};
use crate::text::{chars_of, dec_digits, padded_hex, parse_unsigned, parse_unsigned_chars, push_decimal,
    push_padded_hex, push_str, string_from_chars};

verus! {

/// How the total of the segments compares with the target page size.
#[derive(Debug, Clone, Copy, PartialEq, Eq, Structural)]
pub enum SizeStatus {
    /// The total equals the target.
    Matches,
    /// The total exceeds the target.
    Over,
    /// The total falls short of the target.
    Under,
    /// There is no target (0).
    NoTarget,
}

pub open spec fn spec_size_status(total: u32, target: u32) -> SizeStatus {
    if target == 0 {
        SizeStatus::NoTarget
    } else if total == target {
        SizeStatus::Matches
    } else if total > target {
        SizeStatus::Over
    } else {
        SizeStatus::Under
    }
}

/// The text of the size indicator.
pub open spec fn spec_size_status_text(total: u32, target: u32) -> Seq<char> {
    let t = dec_digits(total as nat);
    let g = dec_digits(target as nat);
    match spec_size_status(total, target) {
        SizeStatus::Matches => "\u{2714}  Total "@ + t + " B = page size "@ + g + " B"@,
        SizeStatus::Over => "\u{26a0}  Total "@ + t + " B > page size "@ + g + " B  (+"@ + dec_digits(
            (total - target) as nat,
        ) + ")"@,
        SizeStatus::Under => "\u{26a0}  Total "@ + t + " B < page size "@ + g + " B  ("@ + dec_digits(
            (target - total) as nat,
        ) + " missing)"@,
        SizeStatus::NoTarget => "Total: "@ + t + " B  (no workflow active)"@,
    }
}

/// The size indicator above the layout bar.
pub fn size_status(total: u32, target: u32) -> (r: (SizeStatus, String))
    ensures
        r.0 == spec_size_status(total, target),
        r.1@ == spec_size_status_text(total, target),
{
    let mut out: Vec<char> = Vec::new();
    let status = if target == 0 {
        push_str(&mut out, "Total: ");
        push_decimal(&mut out, total as u64);
        push_str(&mut out, " B  (no workflow active)");
        SizeStatus::NoTarget
    } else if total == target {
        push_str(&mut out, "\u{2714}  Total ");
        push_decimal(&mut out, total as u64);
        push_str(&mut out, " B = page size ");
        push_decimal(&mut out, target as u64);
        push_str(&mut out, " B");
        SizeStatus::Matches
    } else if total > target {
        push_str(&mut out, "\u{26a0}  Total ");
        push_decimal(&mut out, total as u64);
        push_str(&mut out, " B > page size ");
        push_decimal(&mut out, target as u64);
        push_str(&mut out, " B  (+");
        push_decimal(&mut out, (total - target) as u64);
        push_str(&mut out, ")");
        SizeStatus::Over
    } else {
        push_str(&mut out, "\u{26a0}  Total ");
        push_decimal(&mut out, total as u64);
        push_str(&mut out, " B < page size ");
        push_decimal(&mut out, target as u64);
        push_str(&mut out, " B  (");
        push_decimal(&mut out, (target - total) as u64);
        push_str(&mut out, " missing)");
        SizeStatus::Under
    };
    (status, string_from_chars(out.as_slice()))
}

/// `0x{n:X}`.
pub fn hex_label(n: u64) -> (s: String)
    ensures
        s@ == "0x"@ + padded_hex(n as nat, 0),
{
    let mut out: Vec<char> = Vec::new();
    push_str(&mut out, "0x");
    push_padded_hex(&mut out, n, 0);
    string_from_chars(out.as_slice())
}

/// First and last byte of segment `i` in the table (the last is the first
/// for an empty segment).
pub open spec fn spec_segment_bounds(v: Seq<(SegmentKind, u32)>, i: int) -> (u32, u32) {
    let start = size_sum(v, i);
    (start as u32, (if v[i].1 >= 1 { start + v[i].1 - 1 } else { start }) as u32)
}

/// The new size of the left neighbour after dragging their boundary by
/// `delta` bytes: at least 1, and leaving at least 1 to the right one.
pub open spec fn dragged_left(left: u32, right: u32, delta: i64) -> int {
    let want = left + delta;
    if want < 1 {
        1
    } else if want > left + right - 1 {
        left + right - 1
    } else {
        want
    }
}

/// `{label}\n{size} B`, the text inside a segment of the layout bar.
pub open spec fn spec_bar_label(kind: SegmentKind, size: u32) -> Seq<char> {
    kind_label(kind) + "\n"@ + dec_digits(size as nat) + " B"@
}

/// The label inside a segment of the layout bar.
pub fn segment_bar_label(kind: SegmentKind, size: u32) -> (s: String)
    ensures
        s@ == spec_bar_label(kind, size),
{
    let mut out: Vec<char> = Vec::new();
    push_str(&mut out, kind.label());
    push_str(&mut out, "\n");
    push_decimal(&mut out, size as u64);
    push_str(&mut out, " B");
    string_from_chars(out.as_slice())
}

/// The segment that byte `byte` of the page falls in, if any.
pub open spec fn segment_at_byte(v: Seq<(SegmentKind, u32)>, byte: int) -> Option<int> {
    if exists|i: int| 0 <= i < v.len() && size_sum(v, i) <= byte && byte < size_sum(v, i) + v[i].1 {
        Some(choose|i: int| 0 <= i < v.len() && size_sum(v, i) <= byte && byte < size_sum(v, i) + v[i].1)
    } else {
        None
    }
}

/// `{label}: 0x{first:X}..0x{last:X}  ({size} B)`, the tooltip of a
/// segment of the layout bar.
pub open spec fn spec_segment_tooltip(kind: SegmentKind, start: int, size: u32) -> Seq<char> {
    kind_label(kind) + ": 0x"@ + padded_hex(start as nat, 0) + "..0x"@ + padded_hex((start + size - 1) as nat, 0)
        + "  ("@ + dec_digits(size as nat) + " B)"@
}

/// Start of a segment: the sum of the sizes before it; the starts grow with
/// the index.
proof fn lemma_starts_increase(v: Seq<(SegmentKind, u32)>, i: int, j: int)
    requires
        0 <= i < j <= v.len(),
    ensures
        size_sum(v, i) + v[i].1 <= size_sum(v, j),
{
    lemma_size_sum_mono(v, i + 1, j);
}

proof fn lemma_sums_agree(v: Seq<(SegmentKind, u32)>, w: Seq<(SegmentKind, u32)>, b: int, k: int)
    requires
        0 <= b,
        b + 1 < v.len(),
        w.len() == v.len(),
        forall|j: int| 0 <= j < v.len() && j != b && j != b + 1 ==> #[trigger] w[j] == v[j],
        w[b].1 + w[b + 1].1 == v[b].1 + v[b + 1].1,
        0 <= k <= v.len(),
        k <= b || k >= b + 2,
    ensures
        size_sum(w, k) == size_sum(v, k),
    decreases k,
{
    if k > 0 {
        if k == b + 2 {
            lemma_sums_agree(v, w, b, b);
            assert(size_sum(w, b + 1) == size_sum(w, b) + w[b].1);
            assert(size_sum(v, b + 1) == size_sum(v, b) + v[b].1);
        } else {
            lemma_sums_agree(v, w, b, k - 1);
        }
    }
}

/// Dragging the boundary between two neighbouring segments only moves bytes
/// between them: each keeps at least one byte and the total size of the page
/// structure stays the same.
pub proof fn lemma_drag_keeps_total(v: Seq<(SegmentKind, u32)>, boundary: int, delta: i64)
    requires
        0 <= boundary,
        boundary + 1 < v.len(),
        v[boundary].1 + v[boundary + 1].1 >= 2,
        v[boundary].1 + v[boundary + 1].1 <= u32::MAX,
    ensures
        ({
            let l = v[boundary];
            let r = v[boundary + 1];
            let nl = dragged_left(l.1, r.1, delta);
            let w = v.update(boundary, (l.0, nl as u32)).update(boundary + 1, (r.0, (l.1 + r.1 - nl) as u32));
            &&& 1 <= nl
            &&& 1 <= l.1 + r.1 - nl
            &&& size_sum(w, w.len() as int) == size_sum(v, v.len() as int)
        }),
{
    let l = v[boundary];
    let r = v[boundary + 1];
    let nl = dragged_left(l.1, r.1, delta);
    let w = v.update(boundary, (l.0, nl as u32)).update(boundary + 1, (r.0, (l.1 + r.1 - nl) as u32));
    lemma_sums_agree(v, w, boundary, v.len() as int);
}

impl PageStructureTabState {
    /// Follows the page length of the active workflow, when there is one.
    pub fn sync_target_page_size(&mut self, active_page_length: Option<u32>)
        requires
            old(self).wf(),
        ensures
            final(self).target_page_size == match active_page_length {
                Some(pl) => if pl > 0 { pl } else { old(self).target_page_size },
                None => old(self).target_page_size,
            },
            seg_views(final(self).segments@) == seg_views(old(self).segments@),
            final(self).dirty() == old(self).dirty(),
            final(self).wf(),
    {
        match active_page_length {
            Some(pl) => {
                if pl > 0 {
                    self.target_page_size = pl;
                }
            },
            None => {},
        }
    }

    /// Applies the text typed as the target page size when it is a valid
    /// `u32`.
    pub fn apply_target_size_text(&mut self, text: &str)
        requires
            old(self).wf(),
        ensures
            final(self).target_page_size == match parse_unsigned(text@, u32::MAX as int) {
                Some(v) => v as u32,
                None => old(self).target_page_size,
            },
            seg_views(final(self).segments@) == seg_views(old(self).segments@),
            final(self).dirty() == old(self).dirty(),
            final(self).wf(),
    {
        let c = chars_of(text);
        match parse_unsigned_chars(c.as_slice(), 0xFFFF_FFFF) {
            Some(v) => {
                self.target_page_size = v as u32;
            },
            None => {},
        }
    }

    /// Picks the kind of segment `i` in the table.
    pub fn set_segment_kind(&mut self, i: usize, kind: SegmentKind)
        requires
            i < old(self).segments@.len(),
        ensures
            seg_views(final(self).segments@) == seg_views(old(self).segments@).update(
                i as int,
                (kind, old(self).segments@[i as int].size),
            ),
            final(self).segments@[i as int].size_edit == old(self).segments@[i as int].size_edit,
            final(self).dirty(),
            final(self).wf(),
    {
        let ghost before = seg_views(self.segments@);
        let seg = PageSegment { kind, size: self.segments[i].size, size_edit: self.segments[i].size_edit.clone() };
        self.segments.set(i, seg);
        assert(seg_views(self.segments@) =~= before.update(i as int, (kind, before[i as int].1)));
        self.xml_dirty = true;
    }

    /// First and last byte of every segment, as the table shows them.
    pub fn segment_bounds(&self) -> (b: Vec<(u32, u32)>)
        requires
            size_sum(seg_views(self.segments@), self.segments@.len() as int) <= u32::MAX,
        ensures
            b@.len() == self.segments@.len(),
            forall|i: int|
                0 <= i < self.segments@.len() ==> #[trigger] b@[i] == spec_segment_bounds(
                    seg_views(self.segments@),
                    i,
                ),
    {
        let ghost v = seg_views(self.segments@);
        let n = self.segments.len();
        let mut b: Vec<(u32, u32)> = Vec::new();
        let mut offset: u32 = 0;
        let mut i: usize = 0;
        while i < n
            invariant
                i <= n,
                n == self.segments@.len(),
                v == seg_views(self.segments@),
                size_sum(v, n as int) <= u32::MAX,
                offset == size_sum(v, i as int),
                b@.len() == i,
                forall|k: int| 0 <= k < i ==> #[trigger] b@[k] == spec_segment_bounds(v, k),
            decreases n - i,
        {
            proof {
                lemma_size_sum_mono(v, i + 1, n as int);
            }
            let size = self.segments[i].size;
            let last = if size >= 1 { offset + (size - 1) } else { offset };
            b.push((offset, last));
            offset = offset + size;
            i = i + 1;
        }
        b
    }

    /// Dragging the boundary between segments `boundary` and `boundary + 1`
    /// by `delta` bytes: the bytes move between the two, each keeping at
    /// least one, and their size texts follow.
    pub fn resize_boundary(&mut self, boundary: usize, delta: i64)
        requires
            boundary + 1 < old(self).segments@.len(),
            old(self).segments@[boundary as int].size + old(self).segments@[boundary + 1].size >= 2,
            old(self).segments@[boundary as int].size + old(self).segments@[boundary + 1].size <= u32::MAX,
            old(self).segments@[boundary as int].size + delta <= i64::MAX,
        ensures
            ({
                let l = old(self).segments@[boundary as int];
                let r = old(self).segments@[boundary + 1];
                let nl = dragged_left(l.size, r.size, delta);
                &&& seg_views(final(self).segments@) == seg_views(old(self).segments@).update(
                    boundary as int,
                    (l.kind, nl as u32),
                ).update(boundary + 1, (r.kind, (l.size + r.size - nl) as u32))
                &&& final(self).segments@[boundary as int].size_edit@ == dec_digits(nl as nat)
                &&& final(self).segments@[boundary + 1].size_edit@ == dec_digits((l.size + r.size - nl) as nat)
            }),
            forall|k: int|
                0 <= k < old(self).segments@.len() && k != boundary && k != boundary + 1
                    ==> #[trigger] final(self).segments@[k] == old(self).segments@[k],
            final(self).dirty(),
            final(self).wf(),
    {
        let ghost before = seg_views(self.segments@);
        let _len = self.segments.len();
        let left = self.segments[boundary].size as i64;
        let right = self.segments[boundary + 1].size as i64;
        let want = left + delta;
        let new_left = if want < 1 {
            1
        } else if want > left + right - 1 {
            left + right - 1
        } else {
            want
        };
        let new_right = left + right - new_left;
        let mut a = PageSegment::new(self.segments[boundary].kind, new_left as u32);
        a.sync_edit_from_size();
        let mut c = PageSegment::new(self.segments[boundary + 1].kind, new_right as u32);
        c.sync_edit_from_size();
        self.segments.set(boundary, a);
        self.segments.set(boundary + 1, c);
        assert(seg_views(self.segments@) =~= before.update(boundary as int, (before[boundary as int].0, new_left as u32)).update(
            boundary + 1,
            (before[boundary + 1].0, new_right as u32),
        ));
        self.xml_dirty = true;
    }

    /// The tooltip of the boundary between segments `boundary` and
    /// `boundary + 1`: `Drag to resize  ←  {left} | {right} →` and
    /// `{left size} B  |  {right size} B`.
    pub fn boundary_tooltip(&self, boundary: usize) -> (t: (String, String))
        requires
            boundary + 1 < self.segments@.len(),
        ensures
            t.0@ == "Drag to resize  \u{2190}  "@ + kind_label(self.segments@[boundary as int].kind) + " | "@
                + kind_label(self.segments@[boundary + 1].kind) + " \u{2192}"@,
            t.1@ == dec_digits(self.segments@[boundary as int].size as nat) + " B  |  "@ + dec_digits(
                self.segments@[boundary + 1].size as nat,
            ) + " B"@,
    {
        let _len = self.segments.len();
        let mut a: Vec<char> = Vec::new();
        push_str(&mut a, "Drag to resize  \u{2190}  ");
        push_str(&mut a, self.segments[boundary].kind.label());
        push_str(&mut a, " | ");
        push_str(&mut a, self.segments[boundary + 1].kind.label());
        push_str(&mut a, " \u{2192}");
        let mut b: Vec<char> = Vec::new();
        push_decimal(&mut b, self.segments[boundary].size as u64);
        push_str(&mut b, " B  |  ");
        push_decimal(&mut b, self.segments[boundary + 1].size as u64);
        push_str(&mut b, " B");
        (string_from_chars(a.as_slice()), string_from_chars(b.as_slice()))
    }

    /// The tooltip of the layout bar over byte `byte` of the page: the
    /// segment it falls in, if any.
    pub fn segment_tooltip_at(&self, byte: u32) -> (t: Option<String>)
        requires
            size_sum(seg_views(self.segments@), self.segments@.len() as int) <= u32::MAX,
        ensures
            match segment_at_byte(seg_views(self.segments@), byte as int) {
                Some(i) => t matches Some(s) && s@ == spec_segment_tooltip(
                    self.segments@[i].kind,
                    size_sum(seg_views(self.segments@), i),
                    self.segments@[i].size,
                ),
                None => t is None,
            },
    {
        let ghost v = seg_views(self.segments@);
        let n = self.segments.len();
        let mut offset: u32 = 0;
        let mut i: usize = 0;
        while i < n
            invariant
                i <= n,
                n == self.segments@.len(),
                v == seg_views(self.segments@),
                size_sum(v, n as int) <= u32::MAX,
                offset == size_sum(v, i as int),
                byte >= offset,
            decreases n - i,
        {
            proof {
                lemma_size_sum_mono(v, i + 1, n as int);
            }
            let size = self.segments[i].size;
            if byte < offset + size {
                proof {
                    assert forall|j: int|
                        0 <= j < v.len() && size_sum(v, j) <= byte && byte < size_sum(v, j) + v[j].1 implies j
                        == i by {
                        if j < i {
                            lemma_starts_increase(v, j, i as int);
                        } else if j > i {
                            lemma_starts_increase(v, i as int, j);
                        }
                    }
                    assert(size_sum(v, i as int) <= byte && byte < size_sum(v, i as int) + v[i as int].1);
                }
                let mut out: Vec<char> = Vec::new();
                push_str(&mut out, self.segments[i].kind.label());
                push_str(&mut out, ": 0x");
                push_padded_hex(&mut out, offset as u64, 0);
                push_str(&mut out, "..0x");
                push_padded_hex(&mut out, (offset + size - 1) as u64, 0);
                push_str(&mut out, "  (");
                push_decimal(&mut out, size as u64);
                push_str(&mut out, " B)");
                return Some(string_from_chars(out.as_slice()));
            }
            offset = offset + size;
            i = i + 1;
        }
        proof {
            assert forall|j: int|
                0 <= j < v.len() && size_sum(v, j) <= byte implies !(byte < size_sum(v, j) + v[j].1) by {
                lemma_starts_increase(v, j, n as int);
            }
        }
        None
    }
}

} // verus!
