//! Dump loading rules: accepted page lengths and block sizes, and reading a
//! set of byte fragments as few contiguous reads.

use vstd::prelude::*;
use crate::data_provider::{DumpDataProvider, stream_bytes};
use crate::error::Error;
use crate::text::{chars_of, push_decimal, push_str, string_from_chars, dec_digits};
use crate::types::Fragment;

verus! {

/// Smallest accepted page length in bytes.
pub const MIN_PAGE_LENGTH: u32 = 500;

/// Largest accepted page length in bytes.
pub const MAX_PAGE_LENGTH: u32 = 100000;

/// Whether `b` is an accepted block size (pages per block).
pub open spec fn valid_block_size(b: u32) -> bool {
    b == 64 || b == 128 || b == 256 || b == 384 || b == 512 || b == 768 || b == 1024
}

/// Checks the geometry a dump is opened with: a page length of 500 to
/// 100000 bytes and one of the accepted block sizes.
pub fn validate_loader_params(page_length: u32, block_size: u32) -> (r: Result<(), Error>)
    ensures
        !(MIN_PAGE_LENGTH <= page_length <= MAX_PAGE_LENGTH) ==> (r matches Err(Error::InvalidMetadata(m)) && m@
            == "Page length "@ + dec_digits(page_length as nat) + " is outside valid range (500-100000)"@),
        MIN_PAGE_LENGTH <= page_length <= MAX_PAGE_LENGTH && !valid_block_size(block_size) ==> (r matches Err(
            Error::InvalidMetadata(m),
        ) && m@ == "Block size "@ + dec_digits(block_size as nat)
            + " is not one of: 64, 128, 256, 384, 512, 768, 1024"@),
        MIN_PAGE_LENGTH <= page_length <= MAX_PAGE_LENGTH && valid_block_size(block_size) ==> r is Ok,
{
    if page_length < MIN_PAGE_LENGTH || page_length > MAX_PAGE_LENGTH {
        let mut m = chars_of("Page length ");
        push_decimal(&mut m, page_length as u64);
        push_str(&mut m, " is outside valid range (500-100000)");
        return Err(Error::InvalidMetadata(string_from_chars(m.as_slice())));
    }
    if !(block_size == 64 || block_size == 128 || block_size == 256 || block_size == 384 || block_size == 512
        || block_size == 768 || block_size == 1024) {
        let mut m = chars_of("Block size ");
        push_decimal(&mut m, block_size as u64);
        push_str(&mut m, " is not one of: 64, 128, 256, 384, 512, 768, 1024");
        return Err(Error::InvalidMetadata(string_from_chars(m.as_slice())));
    }
    Ok(())
}

/// Position at which a fragment starting at `key` goes into a list sorted
/// by start so that equal starts keep their order.
pub open spec fn frag_insert_position(s: Seq<Fragment>, key: u64) -> int
    decreases s.len(),
{
    if s.len() == 0 {
        0
    } else if s.last().start_byte <= key {
        s.len() as int
    } else {
        frag_insert_position(s.drop_last(), key)
    }
}

/// Fragments stably sorted by start byte.
pub open spec fn sort_fragments_spec(fs: Seq<Fragment>) -> Seq<Fragment>
    decreases fs.len(),
{
    if fs.len() == 0 {
        seq![]
    } else {
        let sorted = sort_fragments_spec(fs.drop_last());
        sorted.insert(frag_insert_position(sorted, fs.last().start_byte), fs.last())
    }
}

/// Stable sort of fragments by start byte.
pub fn sort_fragments(fragments: Vec<Fragment>) -> (v: Vec<Fragment>)
    ensures
        v@ == sort_fragments_spec(fragments@),
{
    let mut sorted: Vec<Fragment> = Vec::new();
    let mut i: usize = 0;
    while i < fragments.len()
        invariant
            i <= fragments@.len(),
            sorted@ == sort_fragments_spec(fragments@.subrange(0, i as int)),
        decreases fragments@.len() - i,
    {
        let f = fragments[i];
        let ghost sub = fragments@.subrange(0, i + 1);
        assert(sub.drop_last() =~= fragments@.subrange(0, i as int));
        let ghost s = sorted@;
        let mut p: usize = sorted.len();
        assert(s.subrange(0, p as int) =~= s);
        while p > 0 && sorted[p - 1].start_byte > f.start_byte
            invariant
                p <= sorted@.len(),
                s == sorted@,
                frag_insert_position(s, f.start_byte) == frag_insert_position(s.subrange(0, p as int), f.start_byte),
            decreases p,
        {
            let ghost sp = s.subrange(0, p as int);
            assert(sp.drop_last() =~= s.subrange(0, p - 1));
            p = p - 1;
        }
        sorted.insert(p, f);
        i = i + 1;
    }
    assert(fragments@.subrange(0, i as int) =~= fragments@);
    sorted
}

/// State of the merge after the first `k` fragments: the fragments closed so
/// far and the start and end of the one being extended.
pub open spec fn merge_state(fs: Seq<Fragment>, k: int) -> (Seq<Fragment>, u64, u64)
    decreases k,
{
    if k <= 1 {
        (seq![], fs[0].start_byte, fs[0].end_byte)
    } else {
        let (m, s, e) = merge_state(fs, k - 1);
        let f = fs[k - 1];
        if f.start_byte <= e {
            (m, s, if e >= f.end_byte { e } else { f.end_byte })
        } else {
            (m.push(Fragment { start_byte: s, end_byte: e }), f.start_byte, f.end_byte)
        }
    }
}

/// Sorted fragments with every run of touching or overlapping fragments
/// merged into one.
pub open spec fn merged_fragments(fs: Seq<Fragment>) -> Seq<Fragment> {
    if fs.len() == 0 {
        seq![]
    } else {
        let (m, s, e) = merge_state(fs, fs.len() as int);
        m.push(Fragment { start_byte: s, end_byte: e })
    }
}

/// Merges contiguous fragments into larger fragments to reduce I/O operations
pub fn merge_contiguous_fragments(fragments: &[Fragment]) -> (merged: Vec<Fragment>)
    ensures
        merged@ == merged_fragments(fragments@),
{
    if fragments.len() == 0 {
        return Vec::new();
    }
    let mut merged: Vec<Fragment> = Vec::new();
    let mut current_start = fragments[0].start_byte;
    let mut current_end = fragments[0].end_byte;
    let mut i: usize = 1;
    while i < fragments.len()
        invariant
            1 <= i <= fragments@.len(),
            merge_state(fragments@, i as int) == (merged@, current_start, current_end),
        decreases fragments@.len() - i,
    {
        let f = fragments[i];
        if f.start_byte <= current_end {
            current_end = if current_end >= f.end_byte { current_end } else { f.end_byte };
        } else {
            merged.push(Fragment::new(current_start, current_end));
            current_start = f.start_byte;
            current_end = f.end_byte;
        }
        i = i + 1;
    }
    merged.push(Fragment::new(current_start, current_end));
    merged
}

/// Bytes read for a fragment: `length` (truncated to 32 bits) bytes from its start.
pub open spec fn fragment_read_len(f: Fragment) -> int {
    (if f.start_byte <= f.end_byte { f.end_byte - f.start_byte } else { 0 }) as u32 as int
}

/// The bytes of the fragments, in order.
pub open spec fn fragments_bytes<P: DumpDataProvider>(p: P, fs: Seq<Fragment>) -> Seq<u8>
    decreases fs.len(),
{
    if fs.len() == 0 {
        seq![]
    } else {
        fragments_bytes(p, fs.drop_last()) + stream_bytes(p, fs.last().start_byte as int, fragment_read_len(
            fs.last(),
        ))
    }
}

/// Whether the provider serves the read of every fragment.
pub open spec fn fragments_served<P: DumpDataProvider>(p: P, fs: Seq<Fragment>) -> bool {
    forall|i: int| 0 <= i < fs.len() ==> p.serves(#[trigger] fs[i].start_byte as int, fragment_read_len(fs[i]))
}

/// Reads fragments (in any order): they are sorted by start, touching ones
/// merged, and the merged ranges read and concatenated; the first read that
/// fails ends it with that read's error.
pub fn read_fragments<P: DumpDataProvider>(p: &mut P, fragments: Vec<Fragment>) -> (r: Result<Vec<u8>, Error>)
    requires
        old(p).wf(),
    ensures
        final(p).wf(),
        forall|q: int| #[trigger] final(p).byte_at(q) == old(p).byte_at(q),
        final(p).spec_metadata() == old(p).spec_metadata(),
        final(p).exact() == old(p).exact(),
        forall|o: int, l: int| #[trigger] final(p).serves(o, l) == old(p).serves(o, l),
        old(p).exact() ==> (r is Ok <==> fragments_served(*old(p), merged_fragments(sort_fragments_spec(fragments@)))),
        old(p).exact() ==> (r matches Ok(v) ==> v@ == fragments_bytes(
            *old(p),
            merged_fragments(sort_fragments_spec(fragments@)),
        )),
{
    let ghost p0 = *p;
    if fragments.len() == 0 {
        proof {
            assert(sort_fragments_spec(fragments@).len() == 0) by {
                assert(fragments@ =~= Seq::<Fragment>::empty());
            }
        }
        return Ok(Vec::new());
    }
    let ghost frags = fragments@;
    let sorted = sort_fragments(fragments);
    let merged = merge_contiguous_fragments(sorted.as_slice());
    assert(merged@ == merged_fragments(sort_fragments_spec(frags)));
    let mut result: Vec<u8> = Vec::new();
    let mut i: usize = 0;
    while i < merged.len()
        invariant
            i <= merged@.len(),
            p.wf(),
            forall|q: int| #[trigger] p.byte_at(q) == p0.byte_at(q),
            p.spec_metadata() == p0.spec_metadata(),
            p0 == *old(p),
            p.exact() == p0.exact(),
            forall|o: int, l: int| #[trigger] p.serves(o, l) == p0.serves(o, l),
            merged@ == merged_fragments(sort_fragments_spec(fragments@)),
            p0.exact() ==> forall|j: int| 0 <= j < i ==> p0.serves(
                #[trigger] merged@[j].start_byte as int,
                fragment_read_len(merged@[j]),
            ),
            p0.exact() ==> result@ == fragments_bytes(p0, merged@.subrange(0, i as int)),
        decreases merged@.len() - i,
    {
        let f = merged[i];
        let len = f.length() as u32;
        proof {
            assert(f.start_byte + len <= u64::MAX);
        }
        assert(len == fragment_read_len(f));
        let bytes = match p.read_bytes(f.start_byte, len) {
            Ok(b) => b,
            Err(e) => {
                proof {
                    if p0.exact() {
                        assert(!p0.serves(merged@[i as int].start_byte as int, fragment_read_len(merged@[i as int])));
                    }
                }
                return Err(e);
            },
        };
        let ghost before = result@;
        let mut c: usize = 0;
        while c < bytes.len()
            invariant
                c <= bytes@.len(),
                result@ == before + bytes@.subrange(0, c as int),
            decreases bytes@.len() - c,
        {
            result.push(bytes[c]);
            c = c + 1;
            assert(result@ =~= before + bytes@.subrange(0, c as int));
        }
        proof {
            let sub = merged@.subrange(0, i + 1);
            assert(sub.drop_last() =~= merged@.subrange(0, i as int));
            if p0.exact() {
                assert(bytes@.subrange(0, c as int) =~= stream_bytes(p0, f.start_byte as int, len as int));
            }
        }
        i = i + 1;
    }
    assert(merged@.subrange(0, i as int) =~= merged@);
    Ok(result)
}

} // verus!
