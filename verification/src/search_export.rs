//! Text of an exported list of search results: CSV, or a fixed-width table
//! headed by the page geometry. Writing the text to a file is the caller's.

use vstd::prelude::*;
use crate::search::SearchResult;
use crate::text::{chars_of, push_chars, push_decimal, push_str, string_from_chars, dec_digits};

verus! {

/// `s` left-aligned in a field of `w` characters (`{:<w}`): padded with
/// spaces on the right when shorter, unchanged when not.
pub open spec fn pad_right(s: Seq<char>, w: nat) -> Seq<char> {
    if s.len() < w {
        s + Seq::new((w - s.len()) as nat, |i: int| ' ')
    } else {
        s
    }
}

/// The CSV line of a result.
pub open spec fn csv_row(r: SearchResult) -> Seq<char> {
    dec_digits(r.index as nat) + ","@ + dec_digits(r.byte_offset as nat) + ","@ + dec_digits(r.block as nat) + ","@
        + dec_digits(r.page as nat) + ","@ + dec_digits(r.offset_in_page as nat) + ",\""@ + r.preview_hex@
        + "\",\""@ + r.preview_ascii@ + "\"\n"@
}

/// The table line of a result.
pub open spec fn table_row(r: SearchResult) -> Seq<char> {
    pad_right(dec_digits(r.index as nat), 6) + " | "@ + pad_right(dec_digits(r.byte_offset as nat), 12) + " | "@
        + pad_right(dec_digits(r.block as nat), 8) + " | "@ + pad_right(dec_digits(r.page as nat), 8) + " | "@
        + pad_right(dec_digits(r.offset_in_page as nat), 11) + " | "@ + pad_right(r.preview_hex@, 47) + " | "@
        + r.preview_ascii@ + "\n"@
}

/// The lines of the results, in order.
pub open spec fn result_rows(rs: Seq<SearchResult>, is_csv: bool) -> Seq<char>
    decreases rs.len(),
{
    if rs.len() == 0 {
        seq![]
    } else {
        result_rows(rs.drop_last(), is_csv) + if is_csv {
            csv_row(rs.last())
        } else {
            table_row(rs.last())
        }
    }
}

/// The header of the table: a title line with the count and geometry, the
/// column names, and a rule of 100 dashes.
pub open spec fn table_header(n: nat, page_length: u32, block_size: u32) -> Seq<char> {
    "--- Search Results ("@ + dec_digits(n) + ") --- Pagesize "@ + dec_digits(page_length as nat)
        + " --- Blocksize "@ + dec_digits(block_size as nat) + " ---\n"@ + pad_right("Index"@, 6) + " | "@
        + pad_right("Byte Offset"@, 12) + " | "@ + pad_right("Block #"@, 8) + " | "@ + pad_right("Page #"@, 8)
        + " | "@ + pad_right("Page Offset"@, 11) + " | "@ + pad_right("Hex Preview"@, 47) + " | Preview\n"@
        + Seq::new(100, |i: int| '-') + "\n"@
}

/// The exported text of the results.
pub open spec fn export_text(rs: Seq<SearchResult>, is_csv: bool, page_length: u32, block_size: u32) -> Seq<char> {
    if is_csv {
        "Index,ByteOffset,Block,Page,OffsetInPage,HexPreview,AsciiPreview\n"@ + result_rows(rs, true)
    } else {
        table_header(rs.len(), page_length, block_size) + result_rows(rs, false)
    }
}

/// Appends `s` left-aligned in a field of `w` characters.
fn push_padded(out: &mut Vec<char>, s: &[char], w: usize)
    ensures
        final(out)@ == old(out)@ + pad_right(s@, w as nat),
{
    let ghost before = out@;
    let n = s.len();
    push_chars(out, s);
    let ghost mid = out@;
    let mut k: usize = n;
    while k < w
        invariant
            n <= k,
            n == s@.len(),
            n < w ==> k <= w,
            n >= w ==> k == n,
            mid == before + s@,
            out@ == mid + Seq::new((k - n) as nat, |i: int| ' '),
        decreases w - k,
    {
        out.push(' ');
        k = k + 1;
        assert(out@ =~= mid + Seq::new((k - n) as nat, |i: int| ' '));
    }
    if n < w {
        assert(k == w);
        assert(out@ =~= before + (s@ + Seq::new((w - n) as nat, |i: int| ' ')));
    } else {
        assert(k == n);
        assert(out@ =~= before + s@);
    }
}

fn push_padded_decimal_field(out: &mut Vec<char>, n: u64, w: usize)
    ensures
        final(out)@ == old(out)@ + pad_right(dec_digits(n as nat), w as nat),
{
    let mut d: Vec<char> = Vec::new();
    push_decimal(&mut d, n);
    assert(d@ =~= dec_digits(n as nat));
    push_padded(out, d.as_slice(), w);
}

/// Appends a string's characters.
fn push_string(out: &mut Vec<char>, s: &String)
    ensures
        final(out)@ == old(out)@ + s@,
{
    push_str(out, s.as_str());
}

fn push_csv_row(out: &mut Vec<char>, r: &SearchResult)
    ensures
        final(out)@ == old(out)@ + csv_row(*r),
{
    let ghost before = out@;
    push_decimal(out, r.index as u64);
    push_str(out, ",");
    push_decimal(out, r.byte_offset);
    push_str(out, ",");
    push_decimal(out, r.block);
    push_str(out, ",");
    push_decimal(out, r.page);
    push_str(out, ",");
    push_decimal(out, r.offset_in_page);
    push_str(out, ",\"");
    push_string(out, &r.preview_hex);
    push_str(out, "\",\"");
    push_string(out, &r.preview_ascii);
    push_str(out, "\"\n");
    assert(out@ =~= before + csv_row(*r));
}

fn push_table_row(out: &mut Vec<char>, r: &SearchResult)
    ensures
        final(out)@ == old(out)@ + table_row(*r),
{
    let ghost before = out@;
    push_padded_decimal_field(out, r.index as u64, 6);
    push_str(out, " | ");
    push_padded_decimal_field(out, r.byte_offset, 12);
    push_str(out, " | ");
    push_padded_decimal_field(out, r.block, 8);
    push_str(out, " | ");
    push_padded_decimal_field(out, r.page, 8);
    push_str(out, " | ");
    push_padded_decimal_field(out, r.offset_in_page, 11);
    push_str(out, " | ");
    let hex = chars_of(r.preview_hex.as_str());
    push_padded(out, hex.as_slice(), 47);
    push_str(out, " | ");
    push_string(out, &r.preview_ascii);
    push_str(out, "\n");
    assert(out@ =~= before + table_row(*r));
}

/// Text of an export of `results`: CSV (a header line and one line per
/// result, previews quoted) or a table (a title with the result count, page
/// length and block size, column names, a rule, and one padded line per
/// result).
pub fn export_results_text(results: &[SearchResult], is_csv: bool, page_length: u32, block_size: u32) -> (s:
    String)
    ensures
        s@ == export_text(results@, is_csv, page_length, block_size),
{
    let mut out: Vec<char>;
    if is_csv {
        out = chars_of("Index,ByteOffset,Block,Page,OffsetInPage,HexPreview,AsciiPreview\n");
    } else {
        out = chars_of("--- Search Results (");
        push_decimal(&mut out, results.len() as u64);
        push_str(&mut out, ") --- Pagesize ");
        push_decimal(&mut out, page_length as u64);
        push_str(&mut out, " --- Blocksize ");
        push_decimal(&mut out, block_size as u64);
        push_str(&mut out, " ---\n");
        push_padded(&mut out, chars_of("Index").as_slice(), 6);
        push_str(&mut out, " | ");
        push_padded(&mut out, chars_of("Byte Offset").as_slice(), 12);
        push_str(&mut out, " | ");
        push_padded(&mut out, chars_of("Block #").as_slice(), 8);
        push_str(&mut out, " | ");
        push_padded(&mut out, chars_of("Page #").as_slice(), 8);
        push_str(&mut out, " | ");
        push_padded(&mut out, chars_of("Page Offset").as_slice(), 11);
        push_str(&mut out, " | ");
        push_padded(&mut out, chars_of("Hex Preview").as_slice(), 47);
        push_str(&mut out, " | Preview\n");
        let ghost before_rule = out@;
        let mut k: usize = 0;
        while k < 100
            invariant
                k <= 100,
                out@ == before_rule + Seq::new(k as nat, |i: int| '-'),
            decreases 100 - k,
        {
            out.push('-');
            k = k + 1;
            assert(out@ =~= before_rule + Seq::new(k as nat, |i: int| '-'));
        }
        push_str(&mut out, "\n");
        assert(out@ =~= table_header(results@.len(), page_length, block_size));
    }
    let ghost head = out@;
    let mut i: usize = 0;
    while i < results.len()
        invariant
            i <= results@.len(),
            out@ == head + result_rows(results@.subrange(0, i as int), is_csv),
        decreases results@.len() - i,
    {
        let r = &results[i];
        if is_csv {
            push_csv_row(&mut out, r);
        } else {
            push_table_row(&mut out, r);
        }
        proof {
            let sub = results@.subrange(0, i + 1);
            assert(sub.drop_last() =~= results@.subrange(0, i as int));
        }
        i = i + 1;
    }
    assert(results@.subrange(0, i as int) =~= results@);
    string_from_chars(out.as_slice())
}

} // verus!
