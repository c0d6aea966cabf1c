//! Reading back the `.case` XML that the page structure editor writes gives
//! back its segments: every segment of non-zero size, in order, with its
//! kind and size.
//!
//! The proof follows the text through the reader: the XML splits into lines,
//! each record line is parsed back into the name and the two addresses that
//! were written into it, the other lines define no record, and the records
//! come out already in address order.

use vstd::prelude::*;
use crate::hex_tab::{
    text_lines, records_of_lines, parse_record_line, attr_value, address_or_zero, kind_of_name, sort_by_start,
    insert_position, sorted_by_start, spec_parse_case_file, RecordView,
};
use crate::page_structure_tab::{
    SegmentKind, kind_label, size_sum, case_xml, record_lines, record_line, imported_segments, nonempty, importable,
    record_size, kind_of_case_name, kind_of_upper, ascii_upper, lemma_size_sum_mono, lemma_size_sum_sub,
};
use crate::search::all_ascii;
use crate::text::{
    find_from, spec_trim, trim_lead, trim_end, is_whitespace_char, dec_digits, parse_unsigned, is_digit,
    lemma_dec_digits_value, eq_ignore_ascii_case,
};

verus! {

/// Whether a text holds no line break.
pub open spec fn no_newline(s: Seq<char>) -> bool {
    forall|i: int| 0 <= i < s.len() ==> s[i] != '\n'
}

/// Lines written one after the other, each ended by a line break.
pub open spec fn joined(ls: Seq<Seq<char>>) -> Seq<char>
    decreases ls.len(),
{
    if ls.len() == 0 {
        seq![]
    } else {
        joined(ls.drop_last()) + ls.last() + seq!['\n']
    }
}

proof fn lemma_text_lines_nonempty(s: Seq<char>)
    ensures
        text_lines(s).len() >= 1,
    decreases s.len(),
{
    if s.len() > 0 {
        lemma_text_lines_nonempty(s.drop_last());
    }
}

proof fn lemma_text_lines_single(s: Seq<char>)
    requires
        no_newline(s),
    ensures
        text_lines(s) == seq![s],
    decreases s.len(),
{
    if s.len() > 0 {
        let d = s.drop_last();
        assert(no_newline(d)) by {
            assert forall|i: int| 0 <= i < d.len() implies d[i] != '\n' by {
                assert(d[i] == s[i]);
            }
        }
        lemma_text_lines_single(d);
        assert(s[s.len() - 1] != '\n');
        assert(d.push(s.last()) =~= s);
        assert(seq![d].update(0, d.push(s.last())) =~= seq![s]);
    } else {
        assert(s =~= Seq::<char>::empty());
    }
}

proof fn lemma_text_lines_concat(a: Seq<char>, b: Seq<char>)
    requires
        a.len() == 0 || a.last() == '\n',
    ensures
        text_lines(a + b) == text_lines(a).drop_last() + text_lines(b),
    decreases b.len(),
{
    lemma_text_lines_nonempty(a);
    if b.len() == 0 {
        assert(a + b =~= a);
        assert(text_lines(a).last() == Seq::<char>::empty());
        assert(text_lines(a) =~= text_lines(a).drop_last() + seq![Seq::<char>::empty()]);
        assert(text_lines(b) == seq![Seq::<char>::empty()]);
    } else {
        lemma_text_lines_concat(a, b.drop_last());
        assert((a + b).drop_last() =~= a + b.drop_last());
        assert((a + b).last() == b.last());
        lemma_text_lines_nonempty(b.drop_last());
        let x = text_lines(a).drop_last();
        let y = text_lines(b.drop_last());
        if b.last() == '\n' {
            assert((x + y).push(seq![]) =~= x + y.push(seq![]));
        } else {
            assert((x + y).update((x + y).len() - 1, (x + y).last().push(b.last())) =~= x + y.update(
                y.len() - 1,
                y.last().push(b.last()),
            ));
        }
    }
}

proof fn lemma_records_concat(x: Seq<Seq<char>>, y: Seq<Seq<char>>)
    ensures
        records_of_lines(x + y) == records_of_lines(x) + records_of_lines(y),
    decreases y.len(),
{
    if y.len() == 0 {
        assert(x + y =~= x);
        assert(records_of_lines(x) + records_of_lines(y) =~= records_of_lines(x));
    } else {
        lemma_records_concat(x, y.drop_last());
        assert((x + y).drop_last() =~= x + y.drop_last());
        assert((x + y).last() == y.last());
        let rx = records_of_lines(x);
        let ry = records_of_lines(y.drop_last());
        match parse_record_line(y.last()) {
            Some(r) => {
                assert((rx + ry).push(r) =~= rx + ry.push(r));
            },
            None => {},
        }
    }
}

proof fn lemma_joined_concat(x: Seq<Seq<char>>, y: Seq<Seq<char>>)
    ensures
        joined(x + y) == joined(x) + joined(y),
    decreases y.len(),
{
    if y.len() == 0 {
        assert(x + y =~= x);
        assert(joined(x) + joined(y) =~= joined(x));
    } else {
        lemma_joined_concat(x, y.drop_last());
        assert((x + y).drop_last() =~= x + y.drop_last());
        assert((x + y).last() == y.last());
        assert(joined(x) + (joined(y.drop_last()) + y.last() + seq!['\n']) =~= joined(x) + joined(y.drop_last())
            + y.last() + seq!['\n']);
    }
}

/// The lines of lines written one after the other and then a last unended
/// line are those lines and the last one.
proof fn lemma_joined_lines(ls: Seq<Seq<char>>, tail: Seq<char>)
    requires
        forall|k: int| 0 <= k < ls.len() ==> no_newline(#[trigger] ls[k]),
        no_newline(tail),
    ensures
        text_lines(joined(ls) + tail) == ls.push(tail),
    decreases ls.len(),
{
    if ls.len() == 0 {
        assert(joined(ls) + tail =~= tail);
        lemma_text_lines_single(tail);
        assert(ls.push(tail) =~= seq![tail]);
    } else {
        let dl = ls.drop_last();
        let l = ls.last();
        assert(no_newline(ls[ls.len() - 1]));
        assert forall|k: int| 0 <= k < dl.len() implies no_newline(#[trigger] dl[k]) by {
            assert(dl[k] == ls[k]);
        }
        lemma_joined_lines(dl, seq![]);
        assert(no_newline(Seq::<char>::empty()));
        assert(joined(dl) + Seq::<char>::empty() =~= joined(dl));
        let a = l + seq!['\n'];
        let rest = a + tail;
        assert(joined(ls) + tail =~= joined(dl) + rest);
        assert(joined(dl).len() == 0 || joined(dl).last() == '\n');
        lemma_text_lines_concat(joined(dl), rest);
        assert(a.last() == '\n');
        lemma_text_lines_concat(a, tail);
        lemma_text_lines_single(l);
        assert(a.drop_last() =~= l);
        assert(text_lines(a) =~= seq![l, Seq::<char>::empty()]);
        lemma_text_lines_single(tail);
        assert(dl.push(Seq::<char>::empty()).drop_last() =~= dl);
        assert(ls.push(tail) =~= dl + seq![l, tail]);
    }
}

/// The records of lines that all define none are none.
proof fn lemma_records_none(ls: Seq<Seq<char>>)
    requires
        forall|k: int| 0 <= k < ls.len() ==> parse_record_line(#[trigger] ls[k]) is None,
    ensures
        records_of_lines(ls) == Seq::<RecordView>::empty(),
    decreases ls.len(),
{
    if ls.len() > 0 {
        let dl = ls.drop_last();
        assert forall|k: int| 0 <= k < dl.len() implies parse_record_line(#[trigger] dl[k]) is None by {
            assert(dl[k] == ls[k]);
        }
        lemma_records_none(dl);
        assert(parse_record_line(ls[ls.len() - 1]) is None);
    }
}

/// Records already in address order are left as they are by the sort.
proof fn lemma_sort_sorted_identity(rs: Seq<RecordView>)
    requires
        sorted_by_start(rs),
    ensures
        sort_by_start(rs) == rs,
    decreases rs.len(),
{
    if rs.len() > 0 {
        let d = rs.drop_last();
        assert(sorted_by_start(d));
        lemma_sort_sorted_identity(d);
        if d.len() > 0 {
            assert(d.last().1 <= rs.last().1);
        }
        assert(insert_position(d, rs.last().1) == d.len());
        assert(d.insert(d.len() as int, rs.last()) =~= rs);
    }
}

/// Trimming a text whose first `lead` characters are spaces and whose next
/// and last characters are not whitespace drops just those spaces.
proof fn lemma_trim_leading_spaces(s: Seq<char>, lead: int)
    requires
        0 <= lead < s.len(),
        forall|i: int| 0 <= i < lead ==> s[i] == ' ',
        !is_whitespace_char(s[lead]),
        !is_whitespace_char(s.last()),
    ensures
        spec_trim(s) == s.subrange(lead, s.len() as int),
{
    lemma_trim_lead_spaces(s, 0, lead);
    assert(trim_end(s, s.len() as int) == s.len());
}

proof fn lemma_trim_lead_spaces(s: Seq<char>, i: int, lead: int)
    requires
        0 <= i <= lead < s.len(),
        forall|j: int| 0 <= j < lead ==> s[j] == ' ',
        !is_whitespace_char(s[lead]),
    ensures
        trim_lead(s, i) == lead,
    decreases lead - i,
{
    if i < lead {
        assert(is_whitespace_char(s[i]));
        lemma_trim_lead_spaces(s, i + 1, lead);
    }
}

/// Whether `needle` occurs in `hay` at position `q`.
pub open spec fn occurs_at(hay: Seq<char>, needle: Seq<char>, q: int) -> bool {
    hay.subrange(q, q + needle.len()) == needle
}

/// The first occurrence of `needle` is at `k` when it occurs there and at no
/// earlier position.
proof fn lemma_find_first(hay: Seq<char>, needle: Seq<char>, i: int, k: int)
    requires
        0 <= i <= k,
        k + needle.len() <= hay.len(),
        needle.len() > 0,
        hay.subrange(k, k + needle.len()) == needle,
        forall|q: int| i <= q < k ==> !#[trigger] occurs_at(hay, needle, q),
    ensures
        find_from(hay, needle, i) == Some(k),
    decreases k - i,
{
    if i < k {
        assert(!occurs_at(hay, needle, i));
        lemma_find_first(hay, needle, i + 1, k);
    }
}

/// The first `"` in `x + "` + y` is the one after `x` when `x` holds none.
proof fn lemma_find_quote(x: Seq<char>, y: Seq<char>)
    requires
        forall|i: int| 0 <= i < x.len() ==> x[i] != '"',
    ensures
        find_from(x + seq!['"'] + y, seq!['"'], 0) == Some(x.len() as int),
        (x + seq!['"'] + y).subrange(0, x.len() as int) == x,
{
    let h = x + seq!['"'] + y;
    assert(h.subrange(x.len() as int, x.len() as int + 1) =~= seq!['"']);
    assert forall|q: int| 0 <= q < x.len() implies !#[trigger] occurs_at(h, seq!['"'], q) by {
        assert(h.subrange(q, q + 1)[0] == x[q]);
    }
    lemma_find_first(h, seq!['"'], 0, x.len() as int);
    assert(h.subrange(0, x.len() as int) =~= x);
}

/// A decimal rendering reads back as the number.
proof fn lemma_address_of_digits(n: nat)
    requires
        n <= u64::MAX,
    ensures
        address_or_zero(dec_digits(n)) == n,
        forall|i: int| 0 <= i < dec_digits(n).len() ==> is_digit(#[trigger] dec_digits(n)[i]),
{
    lemma_dec_digits_value(n);
    let d = dec_digits(n);
    assert(is_digit(d[0]));
    assert(d[0] != '+');
    assert(parse_unsigned(d, u64::MAX as int) == Some(n));
}

/// Opening of a record line, up to the quote before the name.
pub open spec fn p_open() -> Seq<char> {
    seq!['<', 'R', 'e', 'c', 'o', 'r', 'd', ' ', 'S', 't', 'r', 'u', 'c', 't', 'u', 'r', 'e', 'D', 'e', 'f', 'i', 'n', 'i', 't', 'i', 'o', 'n', 'N', 'a', 'm', 'e', '=', '"']
}

/// Text between the name and the start address of a record line.
pub open spec fn p_start() -> Seq<char> {
    seq!['"', ' ', 'S', 't', 'a', 'r', 't', 'A', 'd', 'd', 'r', 'e', 's', 's', '=', '"']
}

/// Text between the start and the stop address of a record line.
pub open spec fn p_stop() -> Seq<char> {
    seq!['"', ' ', 'S', 't', 'o', 'p', 'A', 'd', 'd', 'r', 'e', 's', 's', '=', '"']
}

/// End of a record line.
pub open spec fn p_close() -> Seq<char> {
    seq!['"', ' ', '/', '>']
}

/// Four spaces of indentation.
pub open spec fn indent4() -> Seq<char> {
    seq![' ', ' ', ' ', ' ']
}

/// A record line as written, without its indentation and line break.
pub open spec fn record_text(name: Seq<char>, start: nat, stop: nat) -> Seq<char> {
    p_open() + name + p_start() + dec_digits(start) + p_stop() + dec_digits(stop) + p_close()
}

/// Whether a name can stand in a record line: no quote, no `=`, no line break.
pub open spec fn plain_name(name: Seq<char>) -> bool {
    forall|i: int| 0 <= i < name.len() ==> name[i] != '"' && name[i] != '=' && name[i] != '\n'
}

proof fn lemma_attribute_keys()
    ensures
        "StructureDefinitionName=\""@ == p_open().subrange(8, 33),
        "StartAddress=\""@ == p_start().subrange(2, 16),
        "StopAddress=\""@ == p_stop().subrange(2, 15),
        "<Record "@ == p_open().subrange(0, 8),
{
    reveal_strlit("StructureDefinitionName=\"");
    reveal_strlit("StartAddress=\"");
    reveal_strlit("StopAddress=\"");
    reveal_strlit("<Record ");
    assert("StructureDefinitionName=\""@ =~= p_open().subrange(8, 33));
    assert("StartAddress=\""@ =~= p_start().subrange(2, 16));
    assert("StopAddress=\""@ =~= p_stop().subrange(2, 15));
    assert("<Record "@ =~= p_open().subrange(0, 8));
}

/// Whether every character is a decimal digit.
pub open spec fn digits_only(s: Seq<char>) -> bool {
    forall|i: int| 0 <= i < s.len() ==> is_digit(#[trigger] s[i])
}

/// A record line from its parts.
pub open spec fn record_parts(name: Seq<char>, da: Seq<char>, db: Seq<char>) -> Seq<char> {
    p_open() + name + p_start() + da + p_stop() + db + p_close()
}

proof fn lemma_record_name(name: Seq<char>, da: Seq<char>, db: Seq<char>)
    requires
        plain_name(name),
    ensures
        attr_value(record_parts(name, da, db), "StructureDefinitionName=\""@) == Some(name),
{
    lemma_attribute_keys();
    let t = record_parts(name, da, db);
    let len = t.len() as int;
    let k1 = p_open().subrange(8, 33);
    assert(t.subrange(8, 33) =~= k1);
    assert forall|q: int| 0 <= q < 8 implies !#[trigger] occurs_at(t, k1, q) by {
        assert(t.subrange(q, q + 25)[0] == t[q]);
        assert(t[q] == p_open()[q]);
    }
    lemma_find_first(t, k1, 0, 8);
    let rest1 = t.subrange(33, len);
    let y1 = p_start().subrange(1, 16) + da + p_stop() + db + p_close();
    assert(rest1 =~= name + seq!['"'] + y1);
    lemma_find_quote(name, y1);
}

proof fn lemma_no_early_start(name: Seq<char>, da: Seq<char>, db: Seq<char>, q: int)
    requires
        plain_name(name),
        0 <= q < 33 + name.len() + 2,
    ensures
        !occurs_at(record_parts(name, da, db), p_start().subrange(2, 16), q),
{
    let t = record_parts(name, da, db);
    let k2 = p_start().subrange(2, 16);
    let n = name.len() as int;
    if occurs_at(t, k2, q) {
        assert(t.subrange(q, q + 14)[12] == k2[12]);
        assert(t.subrange(q, q + 14)[0] == k2[0]);
        if q + 12 < 33 {
            assert(t[q + 12] == p_open()[q + 12]);
            assert(t[q] == p_open()[q]);
        } else if q + 12 < 33 + n {
            assert(t[q + 12] == name[q + 12 - 33]);
        } else {
            assert(t[q + 12] == p_start()[q + 12 - 33 - n]);
        }
    }
}

proof fn lemma_record_start(name: Seq<char>, da: Seq<char>, db: Seq<char>)
    requires
        plain_name(name),
        digits_only(da),
    ensures
        attr_value(record_parts(name, da, db), "StartAddress=\""@) == Some(da),
{
    lemma_attribute_keys();
    let t = record_parts(name, da, db);
    let len = t.len() as int;
    let n = name.len() as int;
    let k2 = p_start().subrange(2, 16);
    let p2 = 33 + n + 2;
    assert(t.subrange(p2, p2 + 14) =~= k2);
    assert forall|q: int| 0 <= q < p2 implies !#[trigger] occurs_at(t, k2, q) by {
        lemma_no_early_start(name, da, db, q);
    }
    lemma_find_first(t, k2, 0, p2);
    let rest2 = t.subrange(p2 + 14, len);
    let y2 = p_stop().subrange(1, 15) + db + p_close();
    assert(rest2 =~= da + seq!['"'] + y2);
    assert forall|i: int| 0 <= i < da.len() implies da[i] != '"' by {
        assert(is_digit(da[i]));
    }
    lemma_find_quote(da, y2);
}

proof fn lemma_no_early_stop(name: Seq<char>, da: Seq<char>, db: Seq<char>, q: int)
    requires
        plain_name(name),
        digits_only(da),
        0 <= q < 33 + name.len() + 16 + da.len() + 2,
    ensures
        !occurs_at(record_parts(name, da, db), p_stop().subrange(2, 15), q),
{
    let t = record_parts(name, da, db);
    let k3 = p_stop().subrange(2, 15);
    let n = name.len() as int;
    let la = da.len() as int;
    if occurs_at(t, k3, q) {
        assert(t.subrange(q, q + 13)[11] == k3[11]);
        assert(t.subrange(q, q + 13)[0] == k3[0]);
        if q + 11 < 33 {
            assert(t[q + 11] == p_open()[q + 11]);
            assert(t[q] == p_open()[q]);
        } else if q + 11 < 33 + n {
            assert(t[q + 11] == name[q + 11 - 33]);
        } else if q + 11 < 33 + n + 16 {
            assert(t[q + 11] == p_start()[q + 11 - 33 - n]);
            assert(t[q] == p_start()[q - 33 - n]);
        } else if q + 11 < 33 + n + 16 + la {
            assert(t[q + 11] == da[q + 11 - 33 - n - 16]);
            assert(is_digit(da[q + 11 - 33 - n - 16]));
        } else {
            assert(t[q + 11] == p_stop()[q + 11 - 33 - n - 16 - la]);
        }
    }
}

proof fn lemma_record_stop(name: Seq<char>, da: Seq<char>, db: Seq<char>)
    requires
        plain_name(name),
        digits_only(da),
        digits_only(db),
    ensures
        attr_value(record_parts(name, da, db), "StopAddress=\""@) == Some(db),
{
    lemma_attribute_keys();
    let t = record_parts(name, da, db);
    let len = t.len() as int;
    let n = name.len() as int;
    let la = da.len() as int;
    let k3 = p_stop().subrange(2, 15);
    let p3 = 33 + n + 16 + la + 2;
    assert(t.subrange(p3, p3 + 13) =~= k3);
    assert forall|q: int| 0 <= q < p3 implies !#[trigger] occurs_at(t, k3, q) by {
        lemma_no_early_stop(name, da, db, q);
    }
    lemma_find_first(t, k3, 0, p3);
    let rest3 = t.subrange(p3 + 13, len);
    let y3 = p_close().subrange(1, 4);
    assert(rest3 =~= db + seq!['"'] + y3);
    assert forall|i: int| 0 <= i < db.len() implies db[i] != '"' by {
        assert(is_digit(db[i]));
    }
    lemma_find_quote(db, y3);
}

/// A record line written with a plain name and two addresses parses back
/// into that name and those addresses, unless the name is `Page`.
proof fn lemma_parse_record_text(name: Seq<char>, start: nat, stop: nat)
    requires
        plain_name(name),
        start <= u64::MAX,
        stop <= u64::MAX,
    ensures
        parse_record_line(indent4() + record_text(name, start, stop)) == if eq_ignore_ascii_case(name, "Page"@) {
            None::<RecordView>
        } else {
            Some((name, start as u64, stop as u64, kind_of_name(name)))
        },
{
    lemma_attribute_keys();
    lemma_address_of_digits(start);
    lemma_address_of_digits(stop);
    let da = dec_digits(start);
    let db = dec_digits(stop);
    let t = record_text(name, start, stop);
    assert(t == record_parts(name, da, db));
    let line = indent4() + t;
    assert(line[4] == '<');
    assert(line.last() == '>');
    lemma_trim_leading_spaces(line, 4);
    assert(line.subrange(4, line.len() as int) =~= t);
    assert(t.subrange(0, 8) =~= p_open().subrange(0, 8));
    lemma_record_name(name, da, db);
    lemma_record_start(name, da, db);
    lemma_record_stop(name, da, db);
}

/// `<?xml version="1.0"?>`
pub open spec fn h_xml() -> Seq<char> {
    seq!['<', '?', 'x', 'm', 'l', ' ', 'v', 'e', 'r', 's', 'i', 'o', 'n', '=', '"', '1', '.', '0', '"', '?', '>']
}

/// `<Project>`
pub open spec fn h_project() -> Seq<char> {
    seq!['<', 'P', 'r', 'o', 'j', 'e', 'c', 't', '>']
}

/// `  <Records>`
pub open spec fn l_records() -> Seq<char> {
    seq![' ', ' ', '<', 'R', 'e', 'c', 'o', 'r', 'd', 's', '>']
}

/// `  </Records>`
pub open spec fn l_records_end() -> Seq<char> {
    seq![' ', ' ', '<', '/', 'R', 'e', 'c', 'o', 'r', 'd', 's', '>']
}

/// `  <Page_size>`
pub open spec fn l_page_size_open() -> Seq<char> {
    seq![' ', ' ', '<', 'P', 'a', 'g', 'e', '_', 's', 'i', 'z', 'e', '>']
}

/// `</Page_size>`
pub open spec fn l_page_size_close() -> Seq<char> {
    seq!['<', '/', 'P', 'a', 'g', 'e', '_', 's', 'i', 'z', 'e', '>']
}

/// `</Project>`
pub open spec fn l_project_end() -> Seq<char> {
    seq!['<', '/', 'P', 'r', 'o', 'j', 'e', 'c', 't', '>']
}

/// `Page`
pub open spec fn page_name() -> Seq<char> {
    seq!['P', 'a', 'g', 'e']
}

/// The record lines written for the segments: one for each segment of
/// non-zero size, covering the bytes after those before it.
pub open spec fn written_lines(v: Seq<(SegmentKind, u32)>) -> Seq<Seq<char>>
    decreases v.len(),
{
    if v.len() == 0 {
        seq![]
    } else {
        let prev = written_lines(v.drop_last());
        let s = v.last();
        let start = size_sum(v, v.len() - 1);
        if s.1 == 0 {
            prev
        } else {
            prev.push(indent4() + record_text(kind_label(s.0), start as nat, (start + s.1 - 1) as nat))
        }
    }
}

/// The records those lines define.
pub open spec fn written_records(v: Seq<(SegmentKind, u32)>) -> Seq<RecordView>
    decreases v.len(),
{
    if v.len() == 0 {
        seq![]
    } else {
        let prev = written_records(v.drop_last());
        let s = v.last();
        let start = size_sum(v, v.len() - 1);
        if s.1 == 0 {
            prev
        } else {
            prev.push((kind_label(s.0), start as u64, (start + s.1 - 1) as u64, kind_of_name(kind_label(s.0))))
        }
    }
}

/// The lines before the segment records.
pub open spec fn header_lines() -> Seq<Seq<char>> {
    seq![h_xml(), h_project(), l_records()]
}

/// The lines after the segment records, up to the last one.
pub open spec fn trailer_lines(total: int) -> Seq<Seq<char>> {
    seq![
        l_records_end(),
        l_records(),
        indent4() + record_text(page_name(), 0, (if total >= 1 { total - 1 } else { 0 }) as nat),
        l_records_end(),
        l_page_size_open() + dec_digits(total as nat) + l_page_size_close(),
    ]
}

proof fn lemma_labels(k: SegmentKind)
    ensures
        plain_name(kind_label(k)),
        !eq_ignore_ascii_case(kind_label(k), "Page"@),
        kind_of_case_name(kind_label(k)) == k,
{
    reveal_strlit("DATA");
    reveal_strlit("ECC");
    reveal_strlit("SA");
    reveal_strlit("SA-ECC");
    reveal_strlit("UNKNOWN");
    reveal_strlit("Page");
    reveal_strlit("DATA AREA");
    reveal_strlit("SPARE");
    reveal_strlit("OOB");
    reveal_strlit("SAECC");
    let l = kind_label(k);
    assert(all_ascii(l));
    assert(ascii_upper(l) =~= l);
    if k == SegmentKind::Data {
        assert(crate::text::ascii_lower(l[0]) != crate::text::ascii_lower("Page"@[0]));
    }
}

proof fn lemma_page_name()
    ensures
        "Page"@ == page_name(),
        plain_name(page_name()),
        eq_ignore_ascii_case(page_name(), "Page"@),
{
    reveal_strlit("Page");
    assert("Page"@ =~= page_name());
}

proof fn lemma_record_line_text(name: Seq<char>, a: nat, b: nat)
    ensures
        record_line(name, a as int, b as int) == indent4() + record_text(name, a, b) + seq!['\n'],
{
    reveal_strlit("    <Record StructureDefinitionName=\"");
    reveal_strlit("\" StartAddress=\"");
    reveal_strlit("\" StopAddress=\"");
    reveal_strlit("\" />\n");
    assert("    <Record StructureDefinitionName=\""@ =~= indent4() + p_open());
    assert("\" StartAddress=\""@ =~= p_start());
    assert("\" StopAddress=\""@ =~= p_stop());
    assert("\" />\n"@ =~= p_close() + seq!['\n']);
    assert(record_line(name, a as int, b as int) =~= indent4() + record_text(name, a, b) + seq!['\n']);
}

proof fn lemma_size_sum_drop_last(v: Seq<(SegmentKind, u32)>, k: int)
    requires
        v.len() > 0,
        0 <= k <= v.len() - 1,
    ensures
        size_sum(v.drop_last(), k) == size_sum(v, k),
{
    lemma_size_sum_sub(v, v.len() - 1, k);
    assert(v.subrange(0, v.len() - 1) =~= v.drop_last());
}

proof fn lemma_written_lines_joined(v: Seq<(SegmentKind, u32)>)
    ensures
        record_lines(v) == joined(written_lines(v)),
        forall|k: int| 0 <= k < written_lines(v).len() ==> no_newline(#[trigger] written_lines(v)[k]),
    decreases v.len(),
{
    if v.len() > 0 {
        let dl = v.drop_last();
        lemma_written_lines_joined(dl);
        let s = v.last();
        let start = size_sum(v, v.len() - 1);
        if s.1 != 0 {
            assert(start >= 0) by {
                lemma_size_sum_nonneg(v, v.len() - 1);
            }
            let l = indent4() + record_text(kind_label(s.0), start as nat, (start + s.1 - 1) as nat);
            lemma_record_line_text(kind_label(s.0), start as nat, (start + s.1 - 1) as nat);
            let w = written_lines(dl);
            assert(w.push(l).drop_last() =~= w);
            assert(joined(w.push(l)) == joined(w) + l + seq!['\n']);
            assert(joined(w) + record_line(kind_label(s.0), start, start + s.1 - 1) =~= joined(w) + l + seq!['\n']);
            lemma_labels(s.0);
            lemma_record_text_no_newline(kind_label(s.0), start as nat, (start + s.1 - 1) as nat);
            assert forall|k: int| 0 <= k < w.push(l).len() implies no_newline(#[trigger] w.push(l)[k]) by {
                if k < w.len() {
                    assert(w.push(l)[k] == w[k]);
                }
            }
        }
    }
}

proof fn lemma_size_sum_nonneg(v: Seq<(SegmentKind, u32)>, n: int)
    ensures
        size_sum(v, n) >= 0,
    decreases n,
{
    if n > 0 && n <= v.len() {
        lemma_size_sum_nonneg(v, n - 1);
    }
}

proof fn lemma_record_text_no_newline(name: Seq<char>, a: nat, b: nat)
    requires
        plain_name(name),
    ensures
        no_newline(indent4() + record_text(name, a, b)),
{
    lemma_dec_digits_value(a);
    lemma_dec_digits_value(b);
    let da = dec_digits(a);
    let db = dec_digits(b);
    let l = indent4() + record_text(name, a, b);
    assert forall|i: int| 0 <= i < l.len() implies l[i] != '\n' by {
        let n = name.len() as int;
        let la = da.len() as int;
        let lb = db.len() as int;
        if i < 4 {
        } else if i < 37 {
            assert(l[i] == p_open()[i - 4]);
        } else if i < 37 + n {
            assert(l[i] == name[i - 37]);
        } else if i < 53 + n {
            assert(l[i] == p_start()[i - 37 - n]);
        } else if i < 53 + n + la {
            assert(l[i] == da[i - 53 - n]);
            assert(is_digit(da[i - 53 - n]));
        } else if i < 68 + n + la {
            assert(l[i] == p_stop()[i - 53 - n - la]);
        } else if i < 68 + n + la + lb {
            assert(l[i] == db[i - 68 - n - la]);
            assert(is_digit(db[i - 68 - n - la]));
        } else {
            assert(l[i] == p_close()[i - 68 - n - la - lb]);
        }
    }
}

/// The written record lines parse back into the written records, which come
/// in address order, each within the page.
proof fn lemma_written_records(v: Seq<(SegmentKind, u32)>)
    requires
        size_sum(v, v.len() as int) <= u64::MAX,
    ensures
        records_of_lines(written_lines(v)) == written_records(v),
        sorted_by_start(written_records(v)),
        forall|i: int| 0 <= i < written_records(v).len() ==> {
            let r = #[trigger] written_records(v)[i];
            r.1 <= r.2 && r.2 < size_sum(v, v.len() as int)
        },
    decreases v.len(),
{
    if v.len() > 0 {
        let n = v.len() as int;
        let dl = v.drop_last();
        lemma_size_sum_drop_last(v, n - 1);
        lemma_size_sum_mono(v, n - 1, n);
        lemma_written_records(dl);
        let s = v.last();
        let start = size_sum(v, n - 1);
        lemma_size_sum_nonneg(v, n - 1);
        assert(size_sum(v, n) == start + s.1);
        if s.1 != 0 {
            let stop = start + s.1 - 1;
            lemma_labels(s.0);
            lemma_parse_record_text(kind_label(s.0), start as nat, stop as nat);
            let w = written_lines(dl);
            let l = indent4() + record_text(kind_label(s.0), start as nat, stop as nat);
            assert(w.push(l).drop_last() =~= w);
            assert(w.push(l).last() == l);
            let prev = written_records(dl);
            let r = (kind_label(s.0), start as u64, stop as u64, kind_of_name(kind_label(s.0)));
            assert forall|i: int, j: int| 0 <= i < j < prev.push(r).len() implies prev.push(r)[i].1
                <= prev.push(r)[j].1 by {
                if j < prev.len() {
                    assert(prev.push(r)[i] == prev[i]);
                    assert(prev.push(r)[j] == prev[j]);
                } else {
                    assert(prev.push(r)[i] == prev[i]);
                    assert(prev[i].2 < size_sum(dl, dl.len() as int));
                }
            }
            assert forall|i: int| 0 <= i < prev.push(r).len() implies {
                let x = #[trigger] prev.push(r)[i];
                x.1 <= x.2 && x.2 < size_sum(v, v.len() as int)
            } by {
                if i < prev.len() {
                    assert(prev.push(r)[i] == prev[i]);
                }
            }
        }
    }
}

/// Importing the written records gives back the segments of non-zero size.
proof fn lemma_imported_written(v: Seq<(SegmentKind, u32)>)
    requires
        size_sum(v, v.len() as int) <= u64::MAX,
    ensures
        imported_segments(written_records(v)) == nonempty(v),
    decreases v.len(),
{
    reveal(Seq::filter);
    if v.len() == 0 {
        assert(imported_segments(written_records(v)) =~= nonempty(v));
    } else {
        let n = v.len() as int;
        let dl = v.drop_last();
        lemma_size_sum_drop_last(v, n - 1);
        lemma_size_sum_mono(v, n - 1, n);
        lemma_imported_written(dl);
        let s = v.last();
        let start = size_sum(v, n - 1);
        lemma_size_sum_nonneg(v, n - 1);
        assert(nonempty(v) == if s.1 > 0 { nonempty(dl).push(s) } else { nonempty(dl) });
        if s.1 != 0 {
            let stop = start + s.1 - 1;
            lemma_labels(s.0);
            let prev = written_records(dl);
            let r = (kind_label(s.0), start as u64, stop as u64, kind_of_name(kind_label(s.0)));
            assert(record_size(r) == s.1);
            assert(imported_segments(prev.push(r)) =~= imported_segments(prev).push((s.0, s.1)));
        }
    }
}

/// A line of the form `<...>` after some spaces that does not start a
/// `<Record ` element defines no record.
proof fn lemma_not_record(l: Seq<char>, lead: int)
    requires
        0 <= lead,
        lead + 1 < l.len(),
        forall|i: int| 0 <= i < lead ==> l[i] == ' ',
        l[lead] == '<',
        l.last() == '>',
        l[lead + 1] != 'R' || (lead + 7 < l.len() && l[lead + 7] != ' '),
    ensures
        parse_record_line(l) is None,
{
    lemma_attribute_keys();
    lemma_trim_leading_spaces(l, lead);
    let t = l.subrange(lead, l.len() as int);
    if t.len() >= 8 && t.subrange(0, 8) == "<Record "@ {
        assert(t.subrange(0, 8)[1] == p_open()[1]);
        assert(t.subrange(0, 8)[7] == p_open()[7]);
    }
}

proof fn lemma_header_trailer(total: int)
    requires
        0 <= total <= u64::MAX,
    ensures
        records_of_lines(header_lines()) == Seq::<RecordView>::empty(),
        records_of_lines(trailer_lines(total).push(l_project_end())) == Seq::<RecordView>::empty(),
        forall|k: int| 0 <= k < header_lines().len() ==> no_newline(#[trigger] header_lines()[k]),
        forall|k: int| 0 <= k < trailer_lines(total).len() ==> no_newline(#[trigger] trailer_lines(total)[k]),
        no_newline(l_project_end()),
{
    lemma_not_record(h_xml(), 0);
    lemma_not_record(h_project(), 0);
    lemma_not_record(l_records(), 2);
    lemma_not_record(l_records_end(), 2);
    lemma_not_record(l_project_end(), 0);
    let last = (if total >= 1 { total - 1 } else { 0 }) as nat;
    lemma_page_name();
    lemma_parse_record_text(page_name(), 0, last);
    lemma_record_text_no_newline(page_name(), 0, last);
    let ps = l_page_size_open() + dec_digits(total as nat) + l_page_size_close();
    lemma_dec_digits_value(total as nat);
    let d = dec_digits(total as nat);
    assert(ps[2] == '<');
    assert(ps[3] == 'P');
    assert(ps.last() == '>');
    lemma_not_record(ps, 2);
    assert forall|i: int| 0 <= i < ps.len() implies ps[i] != '\n' by {
        if i < 13 {
        } else if i < 13 + d.len() {
            assert(ps[i] == d[i - 13]);
            assert(is_digit(d[i - 13]));
        } else {
            assert(ps[i] == l_page_size_close()[i - 13 - d.len()]);
        }
    }
    let hs = header_lines();
    assert forall|k: int| 0 <= k < hs.len() implies parse_record_line(#[trigger] hs[k]) is None by {}
    lemma_records_none(hs);
    let ts = trailer_lines(total).push(l_project_end());
    assert forall|k: int| 0 <= k < ts.len() implies parse_record_line(#[trigger] ts[k]) is None by {}
    lemma_records_none(ts);
}

proof fn lemma_case_xml_literals()
    ensures
        "<?xml version=\"1.0\"?>\n<Project>\n  <Records>\n"@ == h_xml() + seq!['\n'] + h_project() + seq!['\n']
            + l_records() + seq!['\n'],
        "  </Records>\n  <Records>\n"@ == l_records_end() + seq!['\n'] + l_records() + seq!['\n'],
        "    <Record StructureDefinitionName=\"Page\" StartAddress=\"0\" StopAddress=\""@ == indent4() + p_open()
            + page_name() + p_start() + dec_digits(0) + p_stop(),
        "\" />\n"@ == p_close() + seq!['\n'],
        "  </Records>\n  <Page_size>"@ == l_records_end() + seq!['\n'] + l_page_size_open(),
        "</Page_size>\n</Project>"@ == l_page_size_close() + seq!['\n'] + l_project_end(),
{
    reveal_strlit("<?xml version=\"1.0\"?>\n<Project>\n  <Records>\n");
    reveal_strlit("  </Records>\n  <Records>\n");
    reveal_strlit("    <Record StructureDefinitionName=\"Page\" StartAddress=\"0\" StopAddress=\"");
    reveal_strlit("\" />\n");
    reveal_strlit("  </Records>\n  <Page_size>");
    reveal_strlit("</Page_size>\n</Project>");
    assert("<?xml version=\"1.0\"?>\n<Project>\n  <Records>\n"@ =~= h_xml() + seq!['\n'] + h_project() + seq![
        '\n',
    ] + l_records() + seq!['\n']);
    assert("  </Records>\n  <Records>\n"@ =~= l_records_end() + seq!['\n'] + l_records() + seq!['\n']);
    assert(dec_digits(0) == seq!['0']);
    assert("    <Record StructureDefinitionName=\"Page\" StartAddress=\"0\" StopAddress=\""@ =~= indent4() + p_open()
        + page_name() + p_start() + dec_digits(0) + p_stop());
    assert("\" />\n"@ =~= p_close() + seq!['\n']);
    assert("  </Records>\n  <Page_size>"@ =~= l_records_end() + seq!['\n'] + l_page_size_open());
    assert("</Page_size>\n</Project>"@ =~= l_page_size_close() + seq!['\n'] + l_project_end());
}

/// The `.case` XML of the segments, line by line.
proof fn lemma_case_xml_lines(v: Seq<(SegmentKind, u32)>)
    requires
        0 <= size_sum(v, v.len() as int),
    ensures
        case_xml(v) == joined(header_lines() + written_lines(v) + trailer_lines(size_sum(v, v.len() as int)))
            + l_project_end(),
{
    let total = size_sum(v, v.len() as int);
    let last = (if total >= 1 { total - 1 } else { 0 }) as nat;
    lemma_case_xml_literals();
    lemma_written_lines_joined(v);
    let h = header_lines();
    let w = written_lines(v);
    let t = trailer_lines(total);
    lemma_joined_concat(h + w, t);
    lemma_joined_concat(h, w);
    let nl = seq!['\n'];
    assert(joined(h) == h_xml() + nl + h_project() + nl + l_records() + nl) by {
        let h2 = seq![h_xml(), h_project()];
        let h1 = seq![h_xml()];
        assert(h.drop_last() =~= h2);
        assert(h2.drop_last() =~= h1);
        assert(h1.drop_last() =~= Seq::<Seq<char>>::empty());
        assert(joined(h1.drop_last()) == Seq::<char>::empty());
        assert(joined(h1) =~= h_xml() + nl);
        assert(joined(h2) =~= h_xml() + nl + h_project() + nl);
        assert(h.last() == l_records());
    }
    let page_line = indent4() + record_text(page_name(), 0, last);
    let size_line = l_page_size_open() + dec_digits(total as nat) + l_page_size_close();
    assert(joined(t) == l_records_end() + nl + l_records() + nl + page_line + nl + l_records_end() + nl + size_line
        + nl) by {
        let t4 = seq![l_records_end(), l_records(), page_line, l_records_end()];
        let t3 = seq![l_records_end(), l_records(), page_line];
        let t2 = seq![l_records_end(), l_records()];
        let t1 = seq![l_records_end()];
        assert(t.drop_last() =~= t4);
        assert(t4.drop_last() =~= t3);
        assert(t3.drop_last() =~= t2);
        assert(t2.drop_last() =~= t1);
        assert(t1.drop_last() =~= Seq::<Seq<char>>::empty());
        assert(joined(t1.drop_last()) == Seq::<char>::empty());
        assert(joined(t1) =~= l_records_end() + nl);
        assert(joined(t2) =~= l_records_end() + nl + l_records() + nl);
        assert(joined(t3) =~= l_records_end() + nl + l_records() + nl + page_line + nl);
        assert(joined(t4) =~= l_records_end() + nl + l_records() + nl + page_line + nl + l_records_end() + nl);
    }
    assert(case_xml(v) =~= joined(h + w + t) + l_project_end());
}

/// Reading back the `.case` XML written for a list of segments gives back,
/// in order, the kind and size of every segment whose size is not zero; the
/// XML always passes the import check. (A segment of size 0 writes no record
/// and so does not come back.)
pub proof fn lemma_case_xml_round_trip(v: Seq<(SegmentKind, u32)>)
    requires
        size_sum(v, v.len() as int) <= u32::MAX,
    ensures
        importable(case_xml(v)),
        spec_parse_case_file(case_xml(v)).len() == nonempty(v).len(),
        imported_segments(spec_parse_case_file(case_xml(v))) == nonempty(v),
{
    let total = size_sum(v, v.len() as int);
    lemma_size_sum_nonneg(v, v.len() as int);
    lemma_case_xml_lines(v);
    lemma_written_lines_joined(v);
    lemma_header_trailer(total);
    lemma_written_records(v);
    lemma_imported_written(v);
    let h = header_lines();
    let w = written_lines(v);
    let t = trailer_lines(total);
    let all = h + w + t;
    assert forall|k: int| 0 <= k < all.len() implies no_newline(#[trigger] all[k]) by {
        if k < h.len() {
            assert(all[k] == h[k]);
        } else if k < h.len() + w.len() {
            assert(all[k] == w[k - h.len()]);
        } else {
            assert(all[k] == t[k - h.len() - w.len()]);
        }
    }
    lemma_joined_lines(all, l_project_end());
    assert(all.push(l_project_end()) =~= h + (w + t.push(l_project_end())));
    lemma_records_concat(h, w + t.push(l_project_end()));
    lemma_records_concat(w, t.push(l_project_end()));
    let rs = written_records(v);
    assert(records_of_lines(all.push(l_project_end())) =~= rs);
    lemma_sort_sorted_identity(rs);
    assert(spec_parse_case_file(case_xml(v)) == rs);
    assert forall|i: int| 0 <= i < spec_parse_case_file(case_xml(v)).len() implies {
        let r = #[trigger] spec_parse_case_file(case_xml(v))[i];
        r.1 <= r.2 && r.2 - r.1 + 1 <= u64::MAX
    } by {
        assert(rs[i].2 < total);
    }
}

} // verus!
