//! The pull-based data pipeline: a provider serves the bytes of a stream on
//! demand; composite providers XOR inputs together, concatenate them, or
//! keep only the pages that hold search matches.

use vstd::prelude::*;
use crate::error::Error;
use crate::types::{FileMetadata, Fragment};
use crate::text::{chars_of, string_from_chars};

verus! {

/// A source of NAND dump bytes served on demand.
pub trait DumpDataProvider {
    /// The provider's own invariant (what its reads rely on).
    spec fn wf(&self) -> bool;

    /// Whether reads succeed exactly where `serves` says and give exactly the
    /// bytes `byte_at` describes. The
    /// providers of this library built over such streams do; a provider whose
    /// bytes come from outside (a file) does not claim it.
    spec fn exact(&self) -> bool;

    /// Byte `pos` of the stream the provider serves (past its end, what a
    /// read there gives, if any read succeeds there).
    spec fn byte_at(&self, pos: int) -> u8;

    /// The metadata the provider reports.
    spec fn spec_metadata(&self) -> FileMetadata;

    /// Whether a read of `length` bytes at `offset` succeeds (claimed by
    /// exact providers only).
    spec fn serves(&self, offset: int, length: int) -> bool;

    /// Read `length` bytes starting at `offset`.
    fn read_bytes(&mut self, offset: u64, length: u32) -> (r: Result<Vec<u8>, Error>)
        requires
            old(self).wf(),
            offset + length <= u64::MAX,
        ensures
            final(self).wf(),
            final(self).exact() == old(self).exact(),
            forall|p: int| #[trigger] final(self).byte_at(p) == old(self).byte_at(p),
            final(self).spec_metadata() == old(self).spec_metadata(),
            forall|o: int, l: int| #[trigger] final(self).serves(o, l) == old(self).serves(o, l),
            r matches Ok(v) ==> v@.len() == length,
            old(self).exact() ==> (r is Ok <==> old(self).serves(offset as int, length as int)),
            old(self).exact() ==> (r matches Ok(v) ==> forall|i: int|
                0 <= i < length ==> #[trigger] v@[i] == old(self).byte_at(offset + i)),
    ;

    /// Retrieve metadata for this provider.
    fn get_metadata(&self) -> (m: FileMetadata)
        ensures
            m.size == self.spec_metadata().size,
            m.page_length == self.spec_metadata().page_length,
            m.block_size == self.spec_metadata().block_size,
            m.total_pages == self.spec_metadata().total_pages,
            m.total_blocks == self.spec_metadata().total_blocks,
            m.grid_width == self.spec_metadata().grid_width,
            m.grid_height == self.spec_metadata().grid_height,
            m.path@ == self.spec_metadata().path@,
    ;

    /// Stable unique cache identifier for tile caching.
    fn cache_identity(&self) -> String;
}

/// Where a file-backed provider gets its bytes: implemented by the caller,
/// for instance over an open dump file.
pub trait ByteSource {
    /// Read `length` bytes starting at `offset`.
    fn read_at(&mut self, offset: u64, length: u32) -> Result<Vec<u8>, Error>;
}

/// A provider over bytes that come from outside the library (a dump file).
/// It reports the metadata and identity it was built with and checks the
/// length of every read; it claims nothing of the bytes themselves.
pub struct FileDataProvider<S: ByteSource> {
    pub source: S,
    pub metadata: FileMetadata,
    pub identity: String,
}

impl<S: ByteSource> FileDataProvider<S> {
    /// A provider reading from `source`, described by `metadata`, cached
    /// under `identity`.
    pub fn new(source: S, metadata: FileMetadata, identity: String) -> (p: Self)
        ensures
            p.metadata == metadata,
            p.identity@ == identity@,
    {
        FileDataProvider { source, metadata, identity }
    }
}

impl<S: ByteSource> DumpDataProvider for FileDataProvider<S> {
    open spec fn wf(&self) -> bool {
        true
    }

    /// The bytes come from outside: nothing is claimed of them.
    open spec fn exact(&self) -> bool {
        false
    }

    /// Unspecified: the provider is not exact.
    open spec fn byte_at(&self, pos: int) -> u8 {
        0
    }

    open spec fn spec_metadata(&self) -> FileMetadata {
        self.metadata
    }

    /// Unspecified: whether a read succeeds is up to the source.
    open spec fn serves(&self, offset: int, length: int) -> bool {
        false
    }

    /// Reads from the source; a read that comes back short is an error.
    fn read_bytes(&mut self, offset: u64, length: u32) -> (r: Result<Vec<u8>, Error>) {
        check_read_length(self.source.read_at(offset, length), length)
    }

    fn get_metadata(&self) -> (m: FileMetadata) {
        self.metadata.duplicate()
    }

    fn cache_identity(&self) -> (s: String)
        ensures
            s@ == self.identity@,
    {
        self.identity.clone()
    }
}

/// What a read of `length` bytes gives, from what the byte source gave: its
/// bytes when there are exactly `length` of them, an I/O error `failed to
/// fill whole buffer` when there are not, and the source's own error.
pub fn check_read_length(read: Result<Vec<u8>, Error>, length: u32) -> (r: Result<Vec<u8>, Error>)
    ensures
        match read {
            Ok(v) => if v@.len() == length {
                r == Ok::<Vec<u8>, Error>(v)
            } else {
                r matches Err(Error::IoError(m)) && m@ == "failed to fill whole buffer"@
            },
            Err(e) => r == Err::<Vec<u8>, Error>(e),
        },
{
    match read {
        Ok(v) => {
            if v.len() == length as usize {
                Ok(v)
            } else {
                Err(Error::IoError(string_from_chars(chars_of("failed to fill whole buffer").as_slice())))
            }
        },
        Err(e) => Err(e),
    }
}

/// A dump held in memory, read the way a file is: a read that would run past
/// the end fails.
pub struct MemoryDataProvider {
    pub data: Vec<u8>,
    pub metadata: FileMetadata,
    pub identity: String,
}

impl MemoryDataProvider {
    /// A provider serving `data`, described by `metadata` (whose size should
    /// be the data's length), cached under `identity`.
    pub fn new(data: Vec<u8>, metadata: FileMetadata, identity: String) -> (p: Self)
        ensures
            p.data@ == data@,
            p.metadata == metadata,
            p.identity@ == identity@,
    {
        MemoryDataProvider { data, metadata, identity }
    }
}

impl DumpDataProvider for MemoryDataProvider {
    open spec fn wf(&self) -> bool {
        true
    }

    open spec fn exact(&self) -> bool {
        true
    }

    /// Byte `pos` of the data; zero outside it.
    open spec fn byte_at(&self, pos: int) -> u8 {
        if 0 <= pos < self.data@.len() {
            self.data@[pos]
        } else {
            0
        }
    }

    open spec fn spec_metadata(&self) -> FileMetadata {
        self.metadata
    }

    /// A read succeeds when it lies within the data.
    open spec fn serves(&self, offset: int, length: int) -> bool {
        0 <= offset && 0 <= length && offset + length <= self.data@.len()
    }

    fn read_bytes(&mut self, offset: u64, length: u32) -> (r: Result<Vec<u8>, Error>)
        ensures
            r matches Err(e) ==> (e matches Error::IoError(m) && m@ == "failed to fill whole buffer"@),
    {
        let n = self.data.len() as u64;
        if offset > n || length as u64 > n - offset {
            return Err(Error::IoError(string_from_chars(chars_of("failed to fill whole buffer").as_slice())));
        }
        let start = offset as usize;
        let mut out: Vec<u8> = Vec::new();
        let mut i: usize = 0;
        while i < length as usize
            invariant
                i <= length,
                start == offset,
                start + length <= self.data@.len(),
                self.data@.len() <= usize::MAX,
                out@.len() == i,
                forall|k: int| 0 <= k < i ==> #[trigger] out@[k] == self.data@[start + k],
            decreases length - i,
        {
            out.push(self.data[start + i]);
            i = i + 1;
        }
        Ok(out)
    }

    fn get_metadata(&self) -> (m: FileMetadata) {
        self.metadata.duplicate()
    }

    fn cache_identity(&self) -> (s: String)
        ensures
            s@ == self.identity@,
    {
        self.identity.clone()
    }
}

/// The stream bytes `[offset, offset + len)`.
pub open spec fn stream_bytes<P: DumpDataProvider>(p: P, offset: int, len: int) -> Seq<u8> {
    Seq::new(len as nat, |i: int| p.byte_at(offset + i))
}

/// A provider that serves only the pages holding search matches, one after
/// the other: filtered page `k` is page `matching_pages[k]` of the source.
pub struct SearchFilteredDataProvider<P: DumpDataProvider> {
    pub source: P,
    pub matching_pages: Vec<u64>,
    pub search_pattern: String,
    pub metadata: FileMetadata,
    pub identity: String,
}

impl<P: DumpDataProvider> SearchFilteredDataProvider<P> {
    /// The filtered stream's page length.
    pub open spec fn page_len(&self) -> int {
        self.metadata.page_length as int
    }

    /// The original page indices, in filtered order.
    pub open spec fn pages(&self) -> Seq<u64> {
        self.matching_pages@
    }

    /// The upstream provider.
    pub open spec fn upstream(&self) -> P {
        self.source
    }

    /// Whether the source read for filtered page `fp` of a read of `length`
    /// bytes at `offset` succeeds: the part of the page that the read
    /// covers (up to the end of the stream), if any, is read from the
    /// matching source page.
    pub open spec fn page_read_ok(&self, offset: int, length: int, fp: int) -> bool {
        let pl = self.metadata.page_length as int;
        let size = self.metadata.size as int;
        let re = if offset + length <= size { offset + length } else { size };
        let ps = fp * pl;
        let ss = if offset >= ps { offset } else { ps };
        let se = if re <= ps + pl { re } else { ps + pl };
        se > ss ==> self.source.serves(self.matching_pages@[fp] * pl + (ss - ps), se - ss)
    }

    /// Create a filtered view of `source` holding the given pages (original
    /// page indices, in the order they are to be served). Its path is
    /// `search://filtered/<identity>`; the grid is the caller's layout.
    pub fn new(
        source: P,
        matching_pages: Vec<u64>,
        search_pattern: String,
        identity: String,
        grid_width: u32,
        grid_height: u32,
    ) -> (s: Self)
        requires
            source.wf(),
            source.spec_metadata().page_length > 0,
            source.spec_metadata().block_size > 0,
            matching_pages@.len() * source.spec_metadata().page_length <= u64::MAX,
            forall|k: int| 0 <= k < matching_pages@.len() ==> (#[trigger] matching_pages@[k] + 1)
                * source.spec_metadata().page_length <= u64::MAX,
        ensures
            s.wf(),
            s.pages() == matching_pages@,
            s.upstream() == source,
            s.spec_metadata().size == matching_pages@.len() * source.spec_metadata().page_length,
            s.spec_metadata().page_length == source.spec_metadata().page_length,
            s.spec_metadata().block_size == source.spec_metadata().block_size,
            s.spec_metadata().path@ == "search://filtered/"@ + identity@,
            s.spec_metadata().grid_width == grid_width,
            s.spec_metadata().grid_height == grid_height,
    {
        let m = source.get_metadata();
        let total_size = matching_pages.len() as u64 * m.page_length as u64;
        let mut path = crate::text::chars_of("search://filtered/");
        crate::text::push_str(&mut path, identity.as_str());
        let metadata = FileMetadata::with_grid(
            crate::text::string_from_chars(path.as_slice()),
            total_size,
            m.page_length,
            m.block_size,
            grid_width,
            grid_height,
        );
        SearchFilteredDataProvider { source, matching_pages, search_pattern, metadata, identity }
    }

    /// Slice of original matching page indices
    pub fn matching_pages(&self) -> (s: &[u64])
        ensures
            s@ == self.pages(),
    {
        self.matching_pages.as_slice()
    }

    /// Search pattern used to produce this filtered view
    pub fn search_pattern(&self) -> (s: &str)
        ensures
            s@ == self.search_pattern@,
    {
        self.search_pattern.as_str()
    }

    /// Translates a filtered page index to the original dump page index
    pub fn original_page(&self, filtered_page: u64) -> (r: Option<u64>)
        ensures
            filtered_page < self.pages().len() ==> r == Some(self.pages()[filtered_page as int]),
            filtered_page >= self.pages().len() ==> r is None,
    {
        if filtered_page < self.matching_pages.len() as u64 {
            Some(self.matching_pages[filtered_page as usize])
        } else {
            None
        }
    }
}

impl<P: DumpDataProvider> DumpDataProvider for SearchFilteredDataProvider<P> {
    /// Its size is one page per matching page, its page length the source's,
    /// every matching page lies within 64 bits, and the source is sound.
    open spec fn wf(&self) -> bool {
        let pl = self.metadata.page_length as int;
        &&& self.source.wf()
        &&& self.metadata.size == self.matching_pages@.len() * pl
        &&& self.metadata.page_length == self.source.spec_metadata().page_length
        &&& forall|k: int| 0 <= k < self.matching_pages@.len() ==> (#[trigger] self.matching_pages@[k] + 1) * pl
            <= u64::MAX
    }

    /// Exact when its source is.
    open spec fn exact(&self) -> bool {
        self.source.exact()
    }

    /// A read succeeds when it is empty, starts at or past the end, or every
    /// source read it makes succeeds.
    open spec fn serves(&self, offset: int, length: int) -> bool {
        length == 0 || offset >= self.metadata.size || forall|fp: int|
            0 <= fp < self.matching_pages@.len() ==> #[trigger] self.page_read_ok(offset, length, fp)
    }

    /// Filtered byte `pos`: byte `pos % page_length` of the source page that
    /// filtered page `pos / page_length` maps to; zero past the end.
    open spec fn byte_at(&self, pos: int) -> u8 {
        let pl = self.metadata.page_length as int;
        if 0 <= pos < self.metadata.size && pl > 0 {
            self.source.byte_at(self.matching_pages@[pos / pl] * pl + pos % pl)
        } else {
            0
        }
    }

    open spec fn spec_metadata(&self) -> FileMetadata {
        self.metadata
    }

    fn read_bytes(&mut self, offset: u64, length: u32) -> (r: Result<Vec<u8>, Error>) {
        let mut buffer = zeros(length);
        if length == 0 || offset >= self.metadata.size {
            return Ok(buffer);
        }
        let ghost old_self = *self;
        let ghost ex = old_self.exact();
        let total_size = self.metadata.size;
        let page_len = self.metadata.page_length as u64;
        proof {
            if page_len == 0 {
                assert(self.matching_pages@.len() * page_len == 0) by (nonlinear_arith)
                    requires
                        page_len == 0,
                ;
            }
        }
        let want_end = offset + length as u64;
        let readable_end = if want_end <= total_size { want_end } else { total_size };
        let start_fp = offset / page_len;
        let end_fp = (readable_end - 1) / page_len;
        let mut fp = start_fp;
        assert(start_fp * page_len <= offset) by (nonlinear_arith)
            requires
                start_fp == offset / page_len,
                page_len > 0,
        ;
        proof {
            if ex {
                assert forall|f: int| 0 <= f < start_fp && f < self.matching_pages@.len() implies #[trigger] old_self.page_read_ok(
                    offset as int,
                    length as int,
                    f,
                ) by {
                    assert(f * page_len + page_len <= start_fp * page_len) by (nonlinear_arith)
                        requires
                            f + 1 <= start_fp,
                            page_len > 0,
                    ;
                }
            }
        }
        while fp <= end_fp && fp < self.matching_pages.len() as u64
            invariant
                self.wf(),
                old_self == *old(self),
                forall|q: int| #[trigger] self.source.byte_at(q) == old_self.source.byte_at(q),
                forall|p: int| #[trigger] self.byte_at(p) == old_self.byte_at(p),
                self.spec_metadata() == old_self.spec_metadata(),
                self.source.exact() == old_self.source.exact(),
                forall|o: int, l: int| #[trigger] self.source.serves(o, l) == old_self.source.serves(o, l),
                ex == old_self.exact(),
                ex ==> forall|f: int| 0 <= f < fp && f < self.matching_pages@.len() ==> #[trigger] old_self.page_read_ok(
                    offset as int,
                    length as int,
                    f,
                ),
                self.matching_pages@ == old_self.matching_pages@,
                total_size == self.metadata.size,
                page_len == self.metadata.page_length,
                page_len > 0,
                offset < total_size,
                readable_end == if want_end <= total_size { want_end } else { total_size },
                want_end == offset + length,
                start_fp == offset / page_len,
                end_fp == (readable_end - 1) as int / (page_len as int),
                start_fp <= fp,
                buffer@.len() == length,
                ex ==> forall|i: int| 0 <= i < length ==> #[trigger] buffer@[i] == if offset + i < fp * page_len
                    && offset + i < readable_end {
                    old_self.byte_at(offset + i)
                } else {
                    0u8
                },
            decreases end_fp + 1 - fp,
        {
            let orig_page = self.matching_pages[fp as usize];
            proof {
                assert((orig_page + 1) * page_len <= u64::MAX);
                assert(fp * page_len + page_len <= total_size) by (nonlinear_arith)
                    requires
                        fp < self.matching_pages@.len(),
                        total_size == self.matching_pages@.len() * page_len,
                        page_len > 0,
                ;
            }
            let page_start = fp * page_len;
            let page_end = page_start + page_len;
            let seg_start = if offset >= page_start { offset } else { page_start };
            let seg_end = if readable_end <= page_end { readable_end } else { page_end };
            if seg_end > seg_start {
                let in_page_offset = seg_start - page_start;
                let seg_len = (seg_end - seg_start) as u32;
                proof {
                    assert(orig_page * page_len + in_page_offset + seg_len <= (orig_page + 1) * page_len)
                        by (nonlinear_arith)
                        requires
                            in_page_offset + seg_len <= page_len,
                    ;
                }
                let orig_offset = orig_page * page_len + in_page_offset;
                let page_bytes = match self.source.read_bytes(orig_offset, seg_len) {
                    Ok(b) => b,
                    Err(e) => {
                        proof {
                            lemma_filtered_same_serves(*self, old_self);
                            if ex {
                                assert(!old_self.page_read_ok(offset as int, length as int, fp as int));
                            }
                        }
                        assert forall|p: int| #[trigger] self.byte_at(p) == old_self.byte_at(p) by {
                            let pl = self.metadata.page_length as int;
                            if 0 <= p < self.metadata.size && pl > 0 {
                                assert(self.source.byte_at(self.matching_pages@[p / pl] * pl + p % pl)
                                    == old_self.source.byte_at(self.matching_pages@[p / pl] * pl + p % pl));
                            }
                        }
                        return Err(e);
                    },
                };
                proof {
                    if ex {
                        assert(old_self.page_read_ok(offset as int, length as int, fp as int));
                    }
                    assert forall|p: int| #[trigger] self.byte_at(p) == old_self.byte_at(p) by {
                        let pl = self.metadata.page_length as int;
                        if 0 <= p < self.metadata.size && pl > 0 {
                            assert(self.source.byte_at(self.matching_pages@[p / pl] * pl + p % pl)
                                == old_self.source.byte_at(self.matching_pages@[p / pl] * pl + p % pl));
                        }
                    }
                }
                let dest_start = (seg_start - offset) as usize;
                let mut k: usize = 0;
                while k < seg_len as usize
                    invariant
                        k <= seg_len,
                        page_bytes@.len() == seg_len,
                        buffer@.len() == length,
                        dest_start + seg_len <= length,
                        ex ==> forall|i: int| 0 <= i < length ==> #[trigger] buffer@[i] == if dest_start <= i < dest_start + k {
                            page_bytes@[i - dest_start]
                        } else if offset + i < fp * page_len && offset + i < readable_end {
                            old_self.byte_at(offset + i)
                        } else {
                            0u8
                        },
                    decreases seg_len - k,
                {
                    buffer.set(dest_start + k, page_bytes[k]);
                    k = k + 1;
                }
                proof {
                    if ex {
                    assert((fp + 1) * page_len == page_end) by (nonlinear_arith)
                        requires
                            page_start == fp * page_len,
                            page_end == page_start + page_len,
                    ;
                    assert forall|i: int| 0 <= i < length implies #[trigger] buffer@[i] == if offset + i < (fp + 1)
                        * page_len && offset + i < readable_end {
                        old_self.byte_at(offset + i)
                    } else {
                        0u8
                    } by {
                        let pos = offset + i;
                        if dest_start <= i < dest_start + seg_len {
                            assert(pos < seg_end);
                            assert(pos / (page_len as int) == fp && pos % (page_len as int) == pos - fp * page_len)
                                by (nonlinear_arith)
                                requires
                                    fp * page_len <= pos,
                                    pos < fp * page_len + page_len,
                                    page_len > 0,
                            ;
                            assert(page_bytes@[i - dest_start] == old_self.source.byte_at(
                                orig_offset + (i - dest_start),
                            ));
                            assert(old_self.matching_pages@[fp as int] == orig_page);
                            assert(orig_offset + (i - dest_start) == orig_page * page_len + (pos - fp * page_len));
                        }
                    }
                }
                }
            } else {
                proof {
                    if ex {
                        assert(old_self.page_read_ok(offset as int, length as int, fp as int));
                        assert forall|i: int| 0 <= i < length implies #[trigger] buffer@[i] == if offset + i < (fp + 1)
                            * page_len && offset + i < readable_end {
                            old_self.byte_at(offset + i)
                        } else {
                            0u8
                        } by {
                            assert((fp + 1) * page_len == fp * page_len + page_len) by (nonlinear_arith);
                        }
                    }
                }
            }
            fp = fp + 1;
        }
        proof {
            lemma_filtered_same_serves(*self, old_self);
            if ex {
                assert forall|f: int| 0 <= f < old_self.matching_pages@.len() implies #[trigger] old_self.page_read_ok(
                    offset as int,
                    length as int,
                    f,
                ) by {
                    if f >= fp {
                        assert(f * page_len >= readable_end) by (nonlinear_arith)
                            requires
                                f > end_fp,
                                end_fp == (readable_end - 1) as int / (page_len as int),
                                page_len > 0,
                                readable_end >= 1,
                        ;
                    }
                }
            }
            if ex {
            assert forall|i: int| 0 <= i < length implies #[trigger] buffer@[i] == old_self.byte_at(offset + i) by {
                let pos = offset + i;
                if pos >= readable_end {
                    assert(pos >= total_size);
                }
                if pos < readable_end {
                    assert(pos / (page_len as int) <= end_fp) by (nonlinear_arith)
                        requires
                            pos < readable_end,
                            end_fp == (readable_end - 1) as int / (page_len as int),
                            page_len > 0,
                    ;
                    assert(pos < fp * page_len || pos / (page_len as int) >= self.matching_pages@.len()) by (nonlinear_arith)
                        requires
                            fp > end_fp || fp >= self.matching_pages@.len(),
                            pos / (page_len as int) <= end_fp,
                            page_len > 0,
                            pos >= 0,
                    ;
                    if pos / (page_len as int) >= self.matching_pages@.len() {
                        assert(pos >= self.matching_pages@.len() * page_len) by (nonlinear_arith)
                            requires
                                pos / (page_len as int) >= self.matching_pages@.len(),
                                page_len > 0,
                                pos >= 0,
                        ;
                    }
                }
            }
            }
        }
        Ok(buffer)
    }

    fn get_metadata(&self) -> (m: FileMetadata) {
        self.metadata.duplicate()
    }

    fn cache_identity(&self) -> (s: String)
        ensures
            s@ == self.identity@,
    {
        self.identity.clone()
    }
}

proof fn lemma_filtered_same_serves<P: DumpDataProvider>(
    a: SearchFilteredDataProvider<P>,
    b: SearchFilteredDataProvider<P>,
)
    requires
        a.metadata == b.metadata,
        a.matching_pages@ == b.matching_pages@,
        forall|o: int, l: int| #[trigger] a.source.serves(o, l) == b.source.serves(o, l),
    ensures
        forall|o: int, l: int| #[trigger] a.serves(o, l) == b.serves(o, l),
{
    assert forall|o: int, l: int| #[trigger] a.serves(o, l) == b.serves(o, l) by {
        assert forall|fp: int| #[trigger] a.page_read_ok(o, l, fp) == b.page_read_ok(o, l, fp) by {
            let pl = a.metadata.page_length as int;
            let size = a.metadata.size as int;
            let re = if o + l <= size { o + l } else { size };
            let ps = fp * pl;
            let ss = if o >= ps { o } else { ps };
            let se = if re <= ps + pl { re } else { ps + pl };
            assert(a.source.serves(a.matching_pages@[fp] * pl + (ss - ps), se - ss) == b.source.serves(
                b.matching_pages@[fp] * pl + (ss - ps),
                se - ss,
            ));
        }
        if a.serves(o, l) && !(l == 0 || o >= a.metadata.size) {
            assert forall|fp: int| 0 <= fp < b.matching_pages@.len() implies #[trigger] b.page_read_ok(o, l, fp) by {
                assert(a.page_read_ok(o, l, fp));
            }
        }
        if b.serves(o, l) && !(l == 0 || o >= a.metadata.size) {
            assert forall|fp: int| 0 <= fp < a.matching_pages@.len() implies #[trigger] a.page_read_ok(o, l, fp) by {
                assert(b.page_read_ok(o, l, fp));
            }
        }
    }
}

/// `length` zero bytes.
pub fn zeros(length: u32) -> (v: Vec<u8>)
    ensures
        v@ == Seq::new(length as nat, |i: int| 0u8),
{
    let mut v: Vec<u8> = Vec::new();
    let mut i: u32 = 0;
    while i < length
        invariant
            i <= length,
            v@ == Seq::new(i as nat, |k: int| 0u8),
        decreases length - i,
    {
        v.push(0);
        i = i + 1;
        assert(v@ =~= Seq::new(i as nat, |k: int| 0u8));
    }
    v
}

/// Pages an input of `size` bytes fills (rounded up).
pub open spec fn pages_of(size: int, page_length: int) -> int {
    (size + page_length - 1) / page_length
}

/// The largest page count among the input sizes.
pub open spec fn max_pages_of(sizes: Seq<u64>, page_length: int) -> int
    decreases sizes.len(),
{
    if sizes.len() == 0 {
        0
    } else {
        let m = max_pages_of(sizes.drop_last(), page_length);
        let p = pages_of(sizes.last() as int, page_length);
        if p > m { p } else { m }
    }
}

/// The input sizes can be rounded up to whole pages and all inputs padded
/// to the longest within 64 bits.
pub open spec fn concat_sizes_ok(sizes: Seq<u64>, page_length: int) -> bool {
    &&& page_length > 0
    &&& forall|k: int| 0 <= k < sizes.len() ==> #[trigger] sizes[k] + page_length - 1 <= u64::MAX
    &&& max_pages_of(sizes, page_length) * page_length * sizes.len() <= u64::MAX
}

/// A provider that concatenates its inputs: each input is zero-padded to
/// the page count of the longest one, and the padded inputs follow each
/// other in order.
pub struct ConcatenateDataProvider<P: DumpDataProvider> {
    pub inputs: Vec<P>,
    /// Individual sizes of each input (used for zero-padding)
    pub input_sizes: Vec<u64>,
    /// The maximum number of pages across all inputs (used for padding alignment)
    pub max_pages: u64,
    pub metadata: FileMetadata,
    pub identity: String,
}

/// Total size of the concatenation of inputs of the given sizes.
pub open spec fn concat_total(sizes: Seq<u64>, page_length: int) -> int {
    max_pages_of(sizes, page_length) * page_length * sizes.len()
}

proof fn lemma_max_pages_bound(sizes: Seq<u64>, pl: int, k: int)
    requires
        pl > 0,
        0 <= k < sizes.len(),
    ensures
        pages_of(sizes[k] as int, pl) <= max_pages_of(sizes, pl),
        max_pages_of(sizes, pl) >= 0,
    decreases sizes.len(),
{
    if k < sizes.len() - 1 {
        lemma_max_pages_bound(sizes.drop_last(), pl, k);
    }
    lemma_max_pages_nonneg(sizes, pl);
}

proof fn lemma_max_pages_nonneg(sizes: Seq<u64>, pl: int)
    requires
        pl > 0,
    ensures
        max_pages_of(sizes, pl) >= 0,
    decreases sizes.len(),
{
    if sizes.len() > 0 {
        lemma_max_pages_nonneg(sizes.drop_last(), pl);
    }
}

impl<P: DumpDataProvider> ConcatenateDataProvider<P> {
    /// Size the concatenation of inputs of the given sizes has.
    pub fn total_size_for(sizes: &[u64], page_length: u32) -> (t: u64)
        requires
            concat_sizes_ok(sizes@, page_length as int),
        ensures
            t == concat_total(sizes@, page_length as int),
    {
        let mp = Self::max_pages_for(sizes, page_length);
        if sizes.len() == 0 {
            assert(mp * page_length * sizes@.len() == 0) by (nonlinear_arith)
                requires
                    sizes@.len() == 0,
            ;
            return 0;
        }
        proof {
            lemma_max_pages_nonneg(sizes@, page_length as int);
            assert(mp * page_length <= mp * page_length * sizes@.len()) by (nonlinear_arith)
                requires
                    mp >= 0,
                    page_length >= 0,
                    sizes@.len() >= 1,
            ;
        }
        let slot = mp * page_length as u64;
        slot * sizes.len() as u64
    }

    fn max_pages_for(sizes: &[u64], page_length: u32) -> (mp: u64)
        requires
            concat_sizes_ok(sizes@, page_length as int),
        ensures
            mp == max_pages_of(sizes@, page_length as int),
    {
        let pl = page_length as u64;
        let mut mp: u64 = 0;
        let mut i: usize = 0;
        while i < sizes.len()
            invariant
                i <= sizes@.len(),
                pl == page_length,
                concat_sizes_ok(sizes@, page_length as int),
                mp == max_pages_of(sizes@.subrange(0, i as int), pl as int),
            decreases sizes@.len() - i,
        {
            let ghost sub = sizes@.subrange(0, i + 1);
            assert(sub.drop_last() =~= sizes@.subrange(0, i as int));
            assert(sizes@[i as int] + pl - 1 <= u64::MAX);
            let p = (sizes[i] + (pl - 1)) / pl;
            if p > mp {
                mp = p;
            }
            i = i + 1;
        }
        assert(sizes@.subrange(0, i as int) =~= sizes@);
        mp
    }

    /// Concatenates `inputs` (at least one; the first gives the page length
    /// and block size). Its path is `concat://<identity>`; the grid is the
    /// caller's layout.
    pub fn new(inputs: Vec<P>, identity: String, grid_width: u32, grid_height: u32) -> (s: Self)
        requires
            inputs@.len() > 0,
            forall|k: int| 0 <= k < inputs@.len() ==> (#[trigger] inputs@[k]).wf(),
            inputs@[0].spec_metadata().block_size > 0,
            concat_sizes_ok(
                inputs@.map_values(|p: P| p.spec_metadata().size),
                inputs@[0].spec_metadata().page_length as int,
            ),
        ensures
            s.wf(),
            s.inputs@ == inputs@,
            s.input_sizes@ == inputs@.map_values(|p: P| p.spec_metadata().size),
            s.spec_metadata().size == concat_total(
                inputs@.map_values(|p: P| p.spec_metadata().size),
                inputs@[0].spec_metadata().page_length as int,
            ),
            s.spec_metadata().page_length == inputs@[0].spec_metadata().page_length,
            s.spec_metadata().block_size == inputs@[0].spec_metadata().block_size,
            s.spec_metadata().path@ == "concat://"@ + identity@,
            s.spec_metadata().grid_width == grid_width,
            s.spec_metadata().grid_height == grid_height,
    {
        let first = inputs[0].get_metadata();
        let mut sizes: Vec<u64> = Vec::new();
        let mut i: usize = 0;
        while i < inputs.len()
            invariant
                i <= inputs@.len(),
                sizes@ == inputs@.subrange(0, i as int).map_values(|p: P| p.spec_metadata().size),
            decreases inputs@.len() - i,
        {
            let m = inputs[i].get_metadata();
            sizes.push(m.size);
            i = i + 1;
            assert(sizes@ =~= inputs@.subrange(0, i as int).map_values(|p: P| p.spec_metadata().size));
        }
        assert(inputs@.subrange(0, i as int) =~= inputs@);
        let max_pages = Self::max_pages_for(sizes.as_slice(), first.page_length);
        let total = Self::total_size_for(sizes.as_slice(), first.page_length);
        let mut path = crate::text::chars_of("concat://");
        crate::text::push_str(&mut path, identity.as_str());
        let metadata = FileMetadata::with_grid(
            crate::text::string_from_chars(path.as_slice()),
            total,
            first.page_length,
            first.block_size,
            grid_width,
            grid_height,
        );
        ConcatenateDataProvider { inputs, input_sizes: sizes, max_pages, metadata, identity }
    }
}

impl<P: DumpDataProvider> ConcatenateDataProvider<P> {
    /// Whether the read of input `k` that a read of `length` bytes at
    /// `offset` makes succeeds: the part of the input's padded slot that the
    /// read covers (up to the end of the stream), where it starts inside the
    /// input, is read from the input up to its end.
    pub open spec fn slot_read_ok(&self, offset: int, length: int, k: int) -> bool {
        let padded = self.max_pages * self.metadata.page_length;
        let size = self.metadata.size as int;
        let re = if offset + length <= size { offset + length } else { size };
        let start = k * padded;
        let ss = if offset >= start { offset } else { start };
        let se = if re <= start + padded { re } else { start + padded };
        let in_slot = ss - start;
        let isz = self.input_sizes@[k] as int;
        se > ss && in_slot < isz ==> self.inputs@[k].serves(
            in_slot,
            if isz - in_slot <= se - ss { isz - in_slot } else { se - ss },
        )
    }
}

impl<P: DumpDataProvider> DumpDataProvider for ConcatenateDataProvider<P> {
    /// The inputs are sound, the sizes are theirs, and the padded slot size
    /// and total size follow from them.
    open spec fn wf(&self) -> bool {
        let pl = self.metadata.page_length as int;
        &&& self.inputs@.len() > 0
        &&& self.input_sizes@.len() == self.inputs@.len()
        &&& forall|k: int| 0 <= k < self.inputs@.len() ==> (#[trigger] self.inputs@[k]).wf()
        &&& forall|k: int| 0 <= k < self.inputs@.len() ==> #[trigger] self.input_sizes@[k]
            == self.inputs@[k].spec_metadata().size
        &&& concat_sizes_ok(self.input_sizes@, pl)
        &&& self.max_pages == max_pages_of(self.input_sizes@, pl)
        &&& self.metadata.size == concat_total(self.input_sizes@, pl)
    }

    /// Exact when every input is.
    open spec fn exact(&self) -> bool {
        forall|k: int| 0 <= k < self.inputs@.len() ==> (#[trigger] self.inputs@[k]).exact()
    }

    /// A read succeeds when it is empty, starts at or past the end, or every
    /// input read it makes succeeds.
    open spec fn serves(&self, offset: int, length: int) -> bool {
        length == 0 || offset >= self.metadata.size || forall|k: int|
            0 <= k < self.inputs@.len() ==> #[trigger] self.slot_read_ok(offset, length, k)
    }

    /// Byte `pos`: byte `pos % slot` of input `pos / slot` (with `slot` the
    /// padded input size), zero in the padding and past the end.
    open spec fn byte_at(&self, pos: int) -> u8 {
        let slot = self.max_pages * self.metadata.page_length;
        if 0 <= pos < self.metadata.size && slot > 0 {
            let k = pos / slot;
            let q = pos % slot;
            if k < self.inputs@.len() && q < self.input_sizes@[k] {
                self.inputs@[k].byte_at(q)
            } else {
                0
            }
        } else {
            0
        }
    }

    open spec fn spec_metadata(&self) -> FileMetadata {
        self.metadata
    }

    fn read_bytes(&mut self, offset: u64, length: u32) -> (r: Result<Vec<u8>, Error>) {
        let mut buffer = zeros(length);
        if length == 0 {
            return Ok(buffer);
        }
        let total_size = self.metadata.size;
        if offset >= total_size {
            return Ok(buffer);
        }
        let ghost old_self = *self;
        let ghost ex = old_self.exact();
        let page_len = self.metadata.page_length as u64;
        let n = self.inputs.len();
        proof {
            lemma_max_pages_nonneg(self.input_sizes@, page_len as int);
            assert(self.max_pages * page_len <= self.max_pages * page_len * n) by (nonlinear_arith)
                requires
                    n >= 1,
                    self.max_pages >= 0,
                    page_len >= 0,
            ;
        }
        let padded = self.max_pages * page_len;
        proof {
            if padded == 0 {
                assert(padded * n == 0) by (nonlinear_arith)
                    requires
                        padded == 0,
                ;
            }
        }
        let want_end = offset + length as u64;
        let readable_end = if want_end <= total_size { want_end } else { total_size };
        let first_input = offset / padded;
        let last_input = (readable_end - 1) / padded;
        let mut k: u64 = first_input;
        assert(first_input * padded <= offset) by (nonlinear_arith)
            requires
                first_input == offset / padded,
                padded > 0,
        ;
        proof {
            if ex {
                assert forall|j: int| 0 <= j < first_input && j < n implies #[trigger] old_self.slot_read_ok(
                    offset as int,
                    length as int,
                    j,
                ) by {
                    assert(j * padded + padded <= first_input * padded) by (nonlinear_arith)
                        requires
                            j + 1 <= first_input,
                            padded > 0,
                    ;
                }
            }
        }
        while k <= last_input && k < n as u64
            invariant
                self.wf(),
                old_self == *old(self),
                self.inputs@.len() == n,
                old_self.inputs@.len() == n,
                self.input_sizes@ == old_self.input_sizes@,
                self.max_pages == old_self.max_pages,
                self.metadata == old_self.metadata,
                forall|j: int, q: int| 0 <= j < n ==> #[trigger] self.inputs@[j].byte_at(q)
                    == old_self.inputs@[j].byte_at(q),
                forall|j: int| 0 <= j < n ==> #[trigger] self.inputs@[j].spec_metadata()
                    == old_self.inputs@[j].spec_metadata(),
                forall|j: int| 0 <= j < n ==> #[trigger] self.inputs@[j].exact() == old_self.inputs@[j].exact(),
                forall|j: int, o: int, l: int| 0 <= j < n ==> #[trigger] self.inputs@[j].serves(o, l)
                    == old_self.inputs@[j].serves(o, l),
                ex == old_self.exact(),
                ex ==> forall|j: int| 0 <= j < k && j < n ==> #[trigger] old_self.slot_read_ok(
                    offset as int,
                    length as int,
                    j,
                ),
                total_size == self.metadata.size,
                page_len == self.metadata.page_length,
                padded == self.max_pages * page_len,
                padded > 0,
                total_size == padded * n,
                offset < total_size,
                want_end == offset + length,
                readable_end == if want_end <= total_size { want_end } else { total_size },
                first_input == offset as int / (padded as int),
                last_input == (readable_end - 1) as int / (padded as int),
                first_input <= k,
                buffer@.len() == length,
                ex ==> forall|i: int| 0 <= i < length ==> #[trigger] buffer@[i] == if offset + i < k * padded
                    && offset + i < readable_end {
                    old_self.byte_at(offset + i)
                } else {
                    0u8
                },
            decreases last_input + 1 - k,
        {
            proof {
                assert(k * padded + padded <= total_size) by (nonlinear_arith)
                    requires
                        k < n,
                        total_size == padded * n,
                        padded > 0,
                ;
            }
            let slot_start = k * padded;
            let slot_end = slot_start + padded;
            let seg_start = if offset >= slot_start { offset } else { slot_start };
            let seg_end = if readable_end <= slot_end { readable_end } else { slot_end };
            proof {
                assert((k + 1) * padded == slot_end) by (nonlinear_arith)
                    requires
                        slot_start == k * padded,
                        slot_end == slot_start + padded,
                ;
            }
            if seg_end > seg_start {
                let in_slot = seg_start - slot_start;
                let seg_len = (seg_end - seg_start) as u32;
                let input_size = self.input_sizes[k as usize];
                if in_slot < input_size {
                    let left = input_size - in_slot;
                    let readable: u32 = if left <= seg_len as u64 { left as u32 } else { seg_len };
                    let ghost loop_inputs = self.inputs@;
                    let mut input = self.inputs.remove(k as usize);
                    let ghost input_before = input;
                    assert(input_before == loop_inputs[k as int]);
                    let ghost before_inputs = self.inputs@;
                    let result = input.read_bytes(in_slot, readable);
                    let ghost input_now = input;
                    self.inputs.insert(k as usize, input);
                    proof {
                        assert(self.inputs@ == before_inputs.insert(k as int, input_now));
                        assert forall|j: int, q: int| 0 <= j < n implies #[trigger] self.inputs@[j].byte_at(q)
                            == old_self.inputs@[j].byte_at(q) by {
                            if j < k {
                                assert(self.inputs@[j] == before_inputs[j]);
                            } else if j > k {
                                assert(self.inputs@[j] == before_inputs[j - 1]);
                            }
                        }
                        assert forall|j: int| 0 <= j < n implies #[trigger] self.inputs@[j].spec_metadata()
                            == old_self.inputs@[j].spec_metadata() by {
                            if j < k {
                                assert(self.inputs@[j] == before_inputs[j]);
                            } else if j > k {
                                assert(self.inputs@[j] == before_inputs[j - 1]);
                            }
                        }
                        assert forall|j: int| 0 <= j < n implies #[trigger] self.inputs@[j].exact()
                            == old_self.inputs@[j].exact() by {
                            if j < k {
                                assert(self.inputs@[j] == before_inputs[j]);
                            } else if j > k {
                                assert(self.inputs@[j] == before_inputs[j - 1]);
                            }
                        }
                        assert forall|j: int| 0 <= j < n implies (#[trigger] self.inputs@[j]).wf() by {
                            if j < k {
                                assert(self.inputs@[j] == before_inputs[j]);
                            } else if j > k {
                                assert(self.inputs@[j] == before_inputs[j - 1]);
                            }
                        }
                        assert forall|j: int, o: int, l: int| 0 <= j < n implies #[trigger] self.inputs@[j].serves(o, l)
                            == old_self.inputs@[j].serves(o, l) by {
                            if j < k {
                                assert(self.inputs@[j] == before_inputs[j]);
                            } else if j > k {
                                assert(self.inputs@[j] == before_inputs[j - 1]);
                            }
                        }
                        if ex {
                            assert(old_self.inputs@[k as int].exact());
                            assert(input_before.serves(in_slot as int, readable as int) == old_self.inputs@[k as int].serves(
                                in_slot as int,
                                readable as int,
                            ));
                        }
                    }
                    let bytes = match result {
                        Ok(b) => b,
                        Err(e) => {
                            proof {
                                lemma_concat_same_stream(*self, old_self);
                                lemma_concat_same_exact(*self, old_self);
                                lemma_concat_same_serves(*self, old_self);
                                if ex {
                                    assert(!old_self.slot_read_ok(offset as int, length as int, k as int));
                                }
                            }
                            return Err(e);
                        },
                    };
                    let dest_start = (seg_start - offset) as usize;
                    let mut c: usize = 0;
                    while c < readable as usize
                        invariant
                            c <= readable,
                            bytes@.len() == readable,
                            buffer@.len() == length,
                            dest_start + readable <= length,
                            ex ==> forall|i: int| 0 <= i < length ==> #[trigger] buffer@[i] == if dest_start <= i
                                < dest_start + c {
                                bytes@[i - dest_start]
                            } else if offset + i < k * padded && offset + i < readable_end {
                                old_self.byte_at(offset + i)
                            } else {
                                0u8
                            },
                        decreases readable - c,
                    {
                        buffer.set(dest_start + c, bytes[c]);
                        c = c + 1;
                    }
                    proof {
                        if ex {
                        assert(old_self.slot_read_ok(offset as int, length as int, k as int));
                        assert(old_self.inputs@[k as int].exact());
                        assert forall|i: int| 0 <= i < length implies #[trigger] buffer@[i] == if offset + i < (k + 1)
                            * padded && offset + i < readable_end {
                            old_self.byte_at(offset + i)
                        } else {
                            0u8
                        } by {
                            let pos = offset + i;
                            if k * padded <= pos < (k + 1) * padded && pos < readable_end {
                                assert(pos / (padded as int) == k && pos % (padded as int) == pos - k * padded)
                                    by (nonlinear_arith)
                                    requires
                                        k * padded <= pos,
                                        pos < k * padded + padded,
                                        padded > 0,
                                ;
                                assert(pos - k * padded == in_slot + (i - dest_start));
                                assert(dest_start <= i < dest_start + seg_len) by {
                                    assert(seg_start <= pos < seg_end);
                                }
                                if i >= dest_start + readable {
                                    assert(readable == left);
                                    assert(pos - k * padded >= input_size);
                                }
                                if dest_start <= i < dest_start + readable {
                                    assert(bytes@[i - dest_start] == input_before.byte_at(in_slot + (i - dest_start)));
                                    let kk = k as int;
                                    assert(input_before.byte_at(in_slot + (i - dest_start))
                                        == old_self.inputs@[kk].byte_at(in_slot + (i - dest_start)));
                                }
                            }
                        }
                    }
                    }
                } else {
                    proof {
                        if ex {
                        assert(old_self.slot_read_ok(offset as int, length as int, k as int));
                        assert forall|i: int| 0 <= i < length implies #[trigger] buffer@[i] == if offset + i < (k + 1)
                            * padded && offset + i < readable_end {
                            old_self.byte_at(offset + i)
                        } else {
                            0u8
                        } by {
                            let pos = offset + i;
                            if k * padded <= pos < (k + 1) * padded && pos < readable_end {
                                assert(pos / (padded as int) == k && pos % (padded as int) == pos - k * padded)
                                    by (nonlinear_arith)
                                    requires
                                        k * padded <= pos,
                                        pos < k * padded + padded,
                                        padded > 0,
                                ;
                            }
                        }
                    }
                    }
                }
            } else {
                proof {
                    if ex {
                        assert(old_self.slot_read_ok(offset as int, length as int, k as int));
                    }
                }
            }
            k = k + 1;
        }
        proof {
            lemma_concat_same_stream(*self, old_self);
            lemma_concat_same_exact(*self, old_self);
            lemma_concat_same_serves(*self, old_self);
            if ex {
                assert forall|j: int| 0 <= j < n implies #[trigger] old_self.slot_read_ok(
                    offset as int,
                    length as int,
                    j,
                ) by {
                    if j >= k {
                        assert(j * padded >= readable_end) by (nonlinear_arith)
                            requires
                                j > last_input,
                                last_input == (readable_end - 1) as int / (padded as int),
                                padded > 0,
                                readable_end >= 1,
                        ;
                    }
                }
            }
            if ex {
            assert forall|i: int| 0 <= i < length implies #[trigger] buffer@[i] == old_self.byte_at(offset + i) by {
                let pos = offset + i;
                if pos >= readable_end {
                    assert(pos >= total_size);
                } else {
                    assert(pos / (padded as int) <= last_input) by (nonlinear_arith)
                        requires
                            pos < readable_end,
                            last_input == (readable_end - 1) as int / (padded as int),
                            padded > 0,
                    ;
                    assert(pos < k * padded || pos / (padded as int) >= n) by (nonlinear_arith)
                        requires
                            k > last_input || k >= n,
                            pos / (padded as int) <= last_input,
                            padded > 0,
                            pos >= 0,
                    ;
                    if pos / (padded as int) >= n {
                        assert(pos >= n * padded) by (nonlinear_arith)
                            requires
                                pos / (padded as int) >= n,
                                padded > 0,
                                pos >= 0,
                        ;
                    }
                }
            }
            }
        }
        Ok(buffer)
    }

    fn get_metadata(&self) -> (m: FileMetadata) {
        self.metadata.duplicate()
    }

    fn cache_identity(&self) -> (s: String)
        ensures
            s@ == self.identity@,
    {
        self.identity.clone()
    }
}

proof fn lemma_concat_same_serves<P: DumpDataProvider>(a: ConcatenateDataProvider<P>, b: ConcatenateDataProvider<P>)
    requires
        a.inputs@.len() == b.inputs@.len(),
        a.input_sizes@ == b.input_sizes@,
        a.max_pages == b.max_pages,
        a.metadata == b.metadata,
        forall|j: int, o: int, l: int| 0 <= j < a.inputs@.len() ==> #[trigger] a.inputs@[j].serves(o, l)
            == b.inputs@[j].serves(o, l),
    ensures
        forall|o: int, l: int| #[trigger] a.serves(o, l) == b.serves(o, l),
{
    assert forall|o: int, l: int| #[trigger] a.serves(o, l) == b.serves(o, l) by {
        assert forall|k: int| 0 <= k < a.inputs@.len() implies #[trigger] a.slot_read_ok(o, l, k) == b.slot_read_ok(
            o,
            l,
            k,
        ) by {
            let padded = a.max_pages * a.metadata.page_length;
            let size = a.metadata.size as int;
            let re = if o + l <= size { o + l } else { size };
            let start = k * padded;
            let ss = if o >= start { o } else { start };
            let se = if re <= start + padded { re } else { start + padded };
            let in_slot = ss - start;
            let isz = a.input_sizes@[k] as int;
            let len = if isz - in_slot <= se - ss { isz - in_slot } else { se - ss };
            assert(a.inputs@[k].serves(in_slot, len) == b.inputs@[k].serves(in_slot, len));
        }
        if a.serves(o, l) && !(l == 0 || o >= a.metadata.size) {
            assert forall|k: int| 0 <= k < b.inputs@.len() implies #[trigger] b.slot_read_ok(o, l, k) by {
                assert(a.slot_read_ok(o, l, k));
            }
        }
        if b.serves(o, l) && !(l == 0 || o >= a.metadata.size) {
            assert forall|k: int| 0 <= k < a.inputs@.len() implies #[trigger] a.slot_read_ok(o, l, k) by {
                assert(b.slot_read_ok(o, l, k));
            }
        }
    }
}

proof fn lemma_concat_same_exact<P: DumpDataProvider>(a: ConcatenateDataProvider<P>, b: ConcatenateDataProvider<P>)
    requires
        a.inputs@.len() == b.inputs@.len(),
        forall|j: int| 0 <= j < a.inputs@.len() ==> #[trigger] a.inputs@[j].exact() == b.inputs@[j].exact(),
    ensures
        a.exact() == b.exact(),
{
    if a.exact() {
        assert forall|k: int| 0 <= k < b.inputs@.len() implies (#[trigger] b.inputs@[k]).exact() by {
            assert(a.inputs@[k].exact());
        }
    }
    if b.exact() {
        assert forall|k: int| 0 <= k < a.inputs@.len() implies (#[trigger] a.inputs@[k]).exact() by {
            assert(b.inputs@[k].exact());
        }
    }
}

proof fn lemma_concat_same_stream<P: DumpDataProvider>(a: ConcatenateDataProvider<P>, b: ConcatenateDataProvider<P>)
    requires
        a.inputs@.len() == b.inputs@.len(),
        a.input_sizes@ == b.input_sizes@,
        a.max_pages == b.max_pages,
        a.metadata == b.metadata,
        forall|j: int, q: int| 0 <= j < a.inputs@.len() ==> #[trigger] a.inputs@[j].byte_at(q) == b.inputs@[j].byte_at(
            q,
        ),
    ensures
        forall|p: int| #[trigger] a.byte_at(p) == b.byte_at(p),
{
    assert forall|p: int| #[trigger] a.byte_at(p) == b.byte_at(p) by {
        let slot = a.max_pages * a.metadata.page_length;
        if 0 <= p < a.metadata.size && slot > 0 {
            let kk = p / slot;
            let q = p % slot;
            if kk < a.inputs@.len() && q < a.input_sizes@[kk] {
                assert(a.inputs@[kk].byte_at(q) == b.inputs@[kk].byte_at(q));
            }
        }
    }
}

/// The byte a secondary input of size `s` contributes at position `pos`:
/// an input no longer than a page repeats every page, one no longer than a
/// block repeats every block (bytes past its size count as zero), a longer one
/// covers its own length once.
pub open spec fn secondary_byte<P: DumpDataProvider>(sec: P, pos: int, pl: int, bb: int) -> u8 {
    let s = sec.spec_metadata().size as int;
    if s == 0 {
        0
    } else if s <= pl {
        if pos % pl < s { sec.byte_at(pos % pl) } else { 0 }
    } else if s <= bb {
        if pos % bb < s { sec.byte_at(pos % bb) } else { 0 }
    } else {
        if pos < s { sec.byte_at(pos) } else { 0 }
    }
}

/// `acc` XOR the contributions of the first `k` secondaries, in order.
pub open spec fn xor_secondaries<P: DumpDataProvider>(acc: u8, secs: Seq<P>, k: int, pos: int, pl: int, bb: int) -> u8
    decreases k,
{
    if k <= 0 || k > secs.len() {
        acc
    } else {
        xor_secondaries(acc, secs, k - 1, pos, pl, bb) ^ secondary_byte(secs[k - 1], pos, pl, bb)
    }
}

/// Whether the read of period `t` that XORing a secondary of `s` bytes,
/// repeating every `period` bytes, into a read of `len` bytes at `offset`
/// makes succeeds: the part of the period's first `s` bytes that the read
/// covers, if any.
pub open spec fn periodic_chunk_ok<P: DumpDataProvider>(sec: P, s: int, offset: int, len: int, period: int, t: int) -> bool {
    let ps = t * period;
    let cs = if offset >= ps { offset } else { ps };
    let ce = if offset + len <= ps + s { offset + len } else { ps + s };
    cs < ce ==> sec.serves(cs - ps, ce - cs)
}

/// Whether every read of a repeating secondary succeeds.
pub open spec fn periodic_ok<P: DumpDataProvider>(sec: P, s: int, offset: int, len: int, period: int) -> bool {
    forall|t: int| 0 <= t ==> #[trigger] periodic_chunk_ok(sec, s, offset, len, period, t)
}

/// Whether the reads of a secondary for a read of `len` bytes at `offset`
/// succeed: by page or by block where it repeats, else the part of it that
/// the read covers.
pub open spec fn secondary_read_ok<P: DumpDataProvider>(sec: P, offset: int, len: int, pl: int, bb: int) -> bool {
    let s = sec.spec_metadata().size as int;
    if s == 0 {
        true
    } else if s <= pl {
        periodic_ok(sec, s, offset, len, pl)
    } else if s <= bb {
        periodic_ok(sec, s, offset, len, bb)
    } else {
        offset < s ==> sec.serves(offset, if s - offset <= len { s - offset } else { len })
    }
}

/// A provider that XORs a primary input with up to two secondary inputs and
/// an optional static byte pattern repeated over the whole stream.
pub struct XorDataProvider<P: DumpDataProvider> {
    pub primary: P,
    pub secondaries: Vec<P>,
    pub static_pattern: Vec<u8>,
    pub metadata: FileMetadata,
    pub identity: String,
}

/// Where the part of period `t` that a read at `offset` covers starts.
pub open spec fn chunk_start(offset: int, period: int, t: int) -> int {
    if offset >= t * period { offset } else { t * period }
}

/// One step of XORing a repeating secondary: at buffer position `i`, which
/// starts a period's active part, lies in its inactive rest, or is the
/// read's start, the step reads the rest of the active part (when inside
/// it) or skips to the next period. The periods whose covered part starts
/// before the step's end are those before plus at most the current one,
/// whose read is the step's.
proof fn lemma_period_step<P: DumpDataProvider>(sec: P, s: int, offset: int, len: int, period: int, i: int, step: int)
    requires
        period > 0,
        0 < s <= period,
        offset >= 0,
        0 <= i < len,
        i == 0 || (offset + i) % period == 0 || (offset + i) % period >= s,
        step == (if (offset + i) % period < s {
            if s - (offset + i) % period <= len - i { s - (offset + i) % period } else { len - i }
        } else {
            if period - (offset + i) % period <= len - i { period - (offset + i) % period } else { len - i }
        }),
    ensures
        (offset + i) % period < s ==> periodic_chunk_ok(sec, s, offset, len, period, (offset + i) / period)
            == sec.serves((offset + i) % period, step),
        (offset + i) / period >= 0,
        forall|t: int|
            0 <= t && chunk_start(offset, period, t) < offset + i + step && !(chunk_start(offset, period, t)
                < offset + i) && t != (offset + i) / period ==> #[trigger] periodic_chunk_ok(
                sec,
                s,
                offset,
                len,
                period,
                t,
            ),
        (offset + i) % period >= s ==> periodic_chunk_ok(sec, s, offset, len, period, (offset + i) / period)
            || chunk_start(offset, period, (offset + i) / period) < offset + i,
        i + step == len || (offset + i + step) % period == 0 || (offset + i + step) % period >= s,
{
    let pos = offset + i;
    let t0 = pos / period;
    let q = pos % period;
    vstd::arithmetic::div_mod::lemma_fundamental_div_mod(pos, period);
    assert(pos == t0 * period + q) by (nonlinear_arith)
        requires
            pos == period * (pos / period) + (pos % period),
            t0 == pos / period,
            q == pos % period,
    ;
    assert(0 <= q < period);
    assert(t0 >= 0) by (nonlinear_arith)
        requires
            t0 == pos / period,
            pos >= 0,
            period > 0,
    ;
    if q < s {
        assert(chunk_start(offset, period, t0) == pos);
    }
    assert forall|t: int|
        0 <= t && chunk_start(offset, period, t) < offset + i + step && !(chunk_start(offset, period, t) < offset + i)
            && t != t0 implies #[trigger] periodic_chunk_ok(sec, s, offset, len, period, t) by {
        if t < t0 {
            assert(t * period + period <= t0 * period) by (nonlinear_arith)
                requires
                    t + 1 <= t0,
                    period > 0,
            ;
        } else {
            assert(t * period >= t0 * period + period) by (nonlinear_arith)
                requires
                    t >= t0 + 1,
                    period > 0,
            ;
        }
    }
    if i + step != len {
        if q < s {
            if s == period {
                assert((t0 * period + period) % period == 0) by (nonlinear_arith)
                    requires
                        period > 0,
                        t0 >= 0,
                ;
                assert(pos + step == t0 * period + period);
            } else {
                assert((t0 * period + s) % period == s) by (nonlinear_arith)
                    requires
                        period > 0,
                        t0 >= 0,
                        0 <= s < period,
                ;
                assert(pos + step == t0 * period + s);
            }
        } else {
            assert((t0 * period + period) % period == 0) by (nonlinear_arith)
                requires
                    period > 0,
                    t0 >= 0,
            ;
            assert(pos + step == t0 * period + period);
        }
    }
}

/// XORs `sec` into `buffer` as a pattern repeating every `period` bytes of
/// which the first `sec_size` are active.
fn xor_periodic<P: DumpDataProvider>(buffer: &mut Vec<u8>, sec: &mut P, sec_size: u64, offset: u64, period: u64) -> (r: Result<(), Error>)
    requires
        old(sec).wf(),
        0 < sec_size <= period,
        old(buffer)@.len() <= u32::MAX,
        offset + old(buffer)@.len() <= u64::MAX,
    ensures
        final(sec).wf(),
        final(sec).exact() == old(sec).exact(),
        forall|p: int| #[trigger] final(sec).byte_at(p) == old(sec).byte_at(p),
        final(sec).spec_metadata() == old(sec).spec_metadata(),
        forall|o: int, l: int| #[trigger] final(sec).serves(o, l) == old(sec).serves(o, l),
        old(sec).exact() ==> (r is Ok <==> periodic_ok(
            *old(sec),
            sec_size as int,
            offset as int,
            old(buffer)@.len() as int,
            period as int,
        )),
        final(buffer)@.len() == old(buffer)@.len(),
        old(sec).exact() && r is Ok ==> forall|j: int| 0 <= j < old(buffer)@.len() ==> #[trigger] final(buffer)@[j] == old(buffer)@[j] ^ (
            if (offset + j) % (period as int) < sec_size {
                old(sec).byte_at((offset + j) % (period as int))
            } else {
                0u8
            }),
{
    let ghost orig = buffer@;
    let ghost sec0 = *sec;
    let length = buffer.len() as u64;
    let mut i: u64 = 0;
    while i < length
        invariant
            i <= length,
            length == orig.len(),
            length <= u32::MAX,
            buffer@.len() == orig.len(),
            offset + length <= u64::MAX,
            0 < sec_size <= period,
            sec.wf(),
            sec0 == *old(sec),
            orig == old(buffer)@,
            forall|p: int| #[trigger] sec.byte_at(p) == sec0.byte_at(p),
            sec.spec_metadata() == sec0.spec_metadata(),
            sec.exact() == sec0.exact(),
            forall|o: int, l: int| #[trigger] sec.serves(o, l) == sec0.serves(o, l),
            i == 0 || (offset + i) % (period as int) == 0 || (offset + i) % (period as int) >= sec_size || i == length,
            sec0.exact() ==> forall|t: int|
                0 <= t && chunk_start(offset as int, period as int, t) < offset + i ==> #[trigger] periodic_chunk_ok(
                    sec0,
                    sec_size as int,
                    offset as int,
                    length as int,
                    period as int,
                    t,
                ),
            sec0.exact() ==> forall|j: int| 0 <= j < length ==> #[trigger] buffer@[j] == if j < i {
                orig[j] ^ (if (offset + j) % (period as int) < sec_size {
                    sec0.byte_at((offset + j) % (period as int))
                } else {
                    0u8
                })
            } else {
                orig[j]
            },
        decreases length - i,
    {
        let pos = offset + i;
        let q = pos % period;
        if q < sec_size {
            let want = sec_size - q;
            let active = if want <= length - i { want } else { length - i };
            proof {
                lemma_period_step(sec0, sec_size as int, offset as int, length as int, period as int, i as int, active as int);
            }
            let bytes = match sec.read_bytes(q, active as u32) {
                Ok(b) => b,
                Err(e) => {
                    proof {
                        if sec0.exact() {
                            assert(!periodic_chunk_ok(
                                sec0,
                                sec_size as int,
                                offset as int,
                                length as int,
                                period as int,
                                (offset + i) / (period as int),
                            ));
                        }
                    }
                    return Err(e);
                },
            };
            proof {
                if sec0.exact() {
                    assert forall|t: int|
                        0 <= t && chunk_start(offset as int, period as int, t) < offset + i + active implies #[trigger] periodic_chunk_ok(
                        sec0,
                        sec_size as int,
                        offset as int,
                        length as int,
                        period as int,
                        t,
                    ) by {
                        if t == (offset + i) / (period as int) {
                        } else if chunk_start(offset as int, period as int, t) < offset + i {
                        }
                    }
                }
            }
            let mut c: u64 = 0;
            while c < active
                invariant
                    c <= active,
                    i + active <= length,
                    length <= u32::MAX,
                    length == orig.len(),
                    buffer@.len() == orig.len(),
                    bytes@.len() == active,
                    q == (offset + i) % (period as int),
                    q + active <= sec_size,
                    sec_size <= period,
                    offset + length <= u64::MAX,
                    sec0.exact() ==> forall|k: int| 0 <= k < active ==> #[trigger] bytes@[k] == sec0.byte_at(q + k),
                    sec0.exact() ==> forall|j: int| 0 <= j < length ==> #[trigger] buffer@[j] == if j < i + c {
                        orig[j] ^ (if (offset + j) % (period as int) < sec_size {
                            sec0.byte_at((offset + j) % (period as int))
                        } else {
                            0u8
                        })
                    } else {
                        orig[j]
                    },
                decreases active - c,
            {
                let j = (i + c) as usize;
                assert(j == i + c);
                proof {
                    assert((offset + i + c) % (period as int) == q + c) by (nonlinear_arith)
                        requires
                            q == (offset + i) % (period as int),
                            q + c < period,
                            period > 0,
                            offset + i >= 0,
                            c >= 0,
                    ;
                }
                buffer.set(j, buffer[j] ^ bytes[c as usize]);
                c = c + 1;
            }
            i = i + active;
        } else {
            let gap = period - q;
            let skip = if gap <= length - i { gap } else { length - i };
            proof {
                lemma_period_step(sec0, sec_size as int, offset as int, length as int, period as int, i as int, skip as int);
                if sec0.exact() {
                    assert forall|t: int|
                        0 <= t && chunk_start(offset as int, period as int, t) < offset + i + skip implies #[trigger] periodic_chunk_ok(
                        sec0,
                        sec_size as int,
                        offset as int,
                        length as int,
                        period as int,
                        t,
                    ) by {
                        if t == (offset + i) / (period as int) {
                        } else if chunk_start(offset as int, period as int, t) < offset + i {
                        }
                    }
                }
                if sec0.exact() {
                assert forall|j: int| 0 <= j < length implies #[trigger] buffer@[j] == if j < i + skip {
                    orig[j] ^ (if (offset + j) % (period as int) < sec_size {
                        sec0.byte_at((offset + j) % (period as int))
                    } else {
                        0u8
                    })
                } else {
                    orig[j]
                } by {
                    if i <= j < i + skip {
                        assert((offset + j) % (period as int) == q + (j - i)) by (nonlinear_arith)
                            requires
                                q == (offset + i) % (period as int),
                                q + (j - i) < period,
                                period > 0,
                                offset + i >= 0,
                                j >= i,
                        ;
                        lemma_xor_zero(orig[j]);
                    }
                }
                }
            }
            i = i + skip;
        }
    }
    proof {
        if sec0.exact() {
            assert forall|t: int| 0 <= t implies #[trigger] periodic_chunk_ok(
                sec0,
                sec_size as int,
                offset as int,
                length as int,
                period as int,
                t,
            ) by {
                if chunk_start(offset as int, period as int, t) < offset + length {
                }
            }
        }
    }
    Ok(())
}

/// The largest of the primary's and the secondaries' sizes.
pub open spec fn max_size_of<P: DumpDataProvider>(primary: P, secs: Seq<P>) -> u64
    decreases secs.len(),
{
    if secs.len() == 0 {
        primary.spec_metadata().size
    } else {
        let m = max_size_of(primary, secs.drop_last());
        let s = secs.last().spec_metadata().size;
        if s > m { s } else { m }
    }
}

impl<P: DumpDataProvider> XorDataProvider<P> {
    /// The primary's size.
    pub open spec fn primary_size(&self) -> int {
        self.primary.spec_metadata().size as int
    }

    /// Size of the XOR of a primary with secondaries: the largest input.
    pub fn output_size(primary: &P, secondaries: &Vec<P>) -> (m: u64)
        ensures
            m == max_size_of(*primary, secondaries@),
    {
        let mut max_size = primary.get_metadata().size;
        let mut i: usize = 0;
        while i < secondaries.len()
            invariant
                i <= secondaries@.len(),
                max_size == max_size_of(*primary, secondaries@.subrange(0, i as int)),
            decreases secondaries@.len() - i,
        {
            let ghost sub = secondaries@.subrange(0, i + 1);
            assert(sub.drop_last() =~= secondaries@.subrange(0, i as int));
            let sz = secondaries[i].get_metadata().size;
            if sz > max_size {
                max_size = sz;
            }
            i = i + 1;
        }
        assert(secondaries@.subrange(0, i as int) =~= secondaries@);
        max_size
    }

    /// XOR of `primary` with `secondaries` and `static_pattern` (which may be
    /// empty). The page length and block size are the primary's, the size the
    /// largest input's; the path is `xor://<identity>` and the grid the
    /// caller's layout.
    pub fn new(
        primary: P,
        secondaries: Vec<P>,
        static_pattern: Vec<u8>,
        identity: String,
        grid_width: u32,
        grid_height: u32,
    ) -> (s: Self)
        requires
            primary.wf(),
            forall|k: int| 0 <= k < secondaries@.len() ==> (#[trigger] secondaries@[k]).wf(),
            primary.spec_metadata().page_length > 0,
            primary.spec_metadata().block_size > 0,
        ensures
            s.wf(),
            s.primary == primary,
            s.secondaries@ == secondaries@,
            s.static_pattern@ == static_pattern@,
            s.spec_metadata().size == max_size_of(primary, secondaries@),
            s.spec_metadata().page_length == primary.spec_metadata().page_length,
            s.spec_metadata().block_size == primary.spec_metadata().block_size,
            s.spec_metadata().path@ == "xor://"@ + identity@,
            s.spec_metadata().grid_width == grid_width,
            s.spec_metadata().grid_height == grid_height,
    {
        let pm = primary.get_metadata();
        let max_size = Self::output_size(&primary, &secondaries);
        let mut path = crate::text::chars_of("xor://");
        crate::text::push_str(&mut path, identity.as_str());
        let metadata = FileMetadata::with_grid(
            crate::text::string_from_chars(path.as_slice()),
            max_size,
            pm.page_length,
            pm.block_size,
            grid_width,
            grid_height,
        );
        XorDataProvider { primary, secondaries, static_pattern, metadata, identity }
    }
}

impl<P: DumpDataProvider> DumpDataProvider for XorDataProvider<P> {
    /// The inputs are sound and the page and block geometry lies within
    /// 64 bits.
    open spec fn wf(&self) -> bool {
        &&& self.primary.wf()
        &&& forall|k: int| 0 <= k < self.secondaries@.len() ==> (#[trigger] self.secondaries@[k]).wf()
    }

    /// Byte `pos`: the primary's byte (zero past its end), XOR each
    /// secondary's contribution in order, XOR the static pattern's byte at
    /// `pos` modulo its length.
    /// Exact when the primary and every secondary are.
    open spec fn exact(&self) -> bool {
        &&& self.primary.exact()
        &&& forall|k: int| 0 <= k < self.secondaries@.len() ==> (#[trigger] self.secondaries@[k]).exact()
    }

    /// A read succeeds when it is empty, or the primary's read (where the
    /// read starts inside it) and every secondary's reads succeed.
    open spec fn serves(&self, offset: int, length: int) -> bool {
        let pl = self.metadata.page_length as int;
        let bb = self.metadata.block_size as int * pl;
        let ps = self.primary_size();
        length == 0 || {
            &&& offset < ps ==> self.primary.serves(offset, if ps - offset <= length { ps - offset } else { length })
            &&& forall|k: int|
                0 <= k < self.secondaries@.len() ==> #[trigger] secondary_read_ok(
                    self.secondaries@[k],
                    offset,
                    length,
                    pl,
                    bb,
                )
        }
    }

    open spec fn byte_at(&self, pos: int) -> u8 {
        let pl = self.metadata.page_length as int;
        let bb = self.metadata.block_size as int * pl;
        let prim = if 0 <= pos < self.primary_size() { self.primary.byte_at(pos) } else { 0u8 };
        let acc = xor_secondaries(prim, self.secondaries@, self.secondaries@.len() as int, pos, pl, bb);
        if self.static_pattern@.len() == 0 {
            acc
        } else {
            acc ^ self.static_pattern@[pos % (self.static_pattern@.len() as int)]
        }
    }

    open spec fn spec_metadata(&self) -> FileMetadata {
        self.metadata
    }

    fn read_bytes(&mut self, offset: u64, length: u32) -> (r: Result<Vec<u8>, Error>) {
        if length == 0 {
            return Ok(Vec::new());
        }
        let ghost old_self = *self;
        let ghost ex = old_self.exact();
        let primary_size = self.primary.get_metadata().size;
        let mut buffer = zeros(length);
        if offset < primary_size {
            let left = primary_size - offset;
            let to_read: u32 = if left <= length as u64 { left as u32 } else { length };
            let p_bytes = match self.primary.read_bytes(offset, to_read) {
                Ok(b) => b,
                Err(e) => {
                    proof {
                        lemma_xor_same_stream(*self, old_self);
                        lemma_xor_same_exact(*self, old_self);
                        lemma_xor_same_serves(*self, old_self);
                    }
                    return Err(e);
                },
            };
            let mut c: usize = 0;
            while c < to_read as usize
                invariant
                    c <= to_read,
                    to_read <= length,
                    buffer@.len() == length,
                    p_bytes@.len() == to_read,
                    forall|j: int| 0 <= j < length ==> #[trigger] buffer@[j] == if j < c { p_bytes@[j] } else { 0u8 },
                decreases to_read - c,
            {
                buffer.set(c, p_bytes[c]);
                c = c + 1;
            }
        }
        let page_len = self.metadata.page_length as u64;
        proof {
            assert(self.metadata.block_size * page_len <= u32::MAX * u32::MAX) by (nonlinear_arith)
                requires
                    self.metadata.block_size <= u32::MAX,
                    page_len <= u32::MAX,
            ;
        }
        let block_bytes = (self.metadata.block_size as u64) * page_len;
        let ghost pl = page_len as int;
        let ghost bb = block_bytes as int;
        proof {
            if ex {
                assert forall|j: int| 0 <= j < length implies #[trigger] buffer@[j] == xor_secondaries(
                    if 0 <= offset + j < primary_size { old_self.primary.byte_at(offset + j) } else { 0u8 },
                    old_self.secondaries@,
                    0,
                    offset + j,
                    pl,
                    bb,
                ) by {}
            }
        }
        let n = self.secondaries.len();
        let mut k: usize = 0;
        while k < n
            invariant
                k <= n,
                n == self.secondaries@.len(),
                n == old_self.secondaries@.len(),
                old_self == *old(self),
                self.wf(),
                self.metadata == old_self.metadata,
                self.static_pattern@ == old_self.static_pattern@,
                pl == self.metadata.page_length,
                bb == self.metadata.block_size * pl,
                page_len == pl,
                block_bytes == bb,
                buffer@.len() == length,
                primary_size == old_self.primary_size(),
                offset + length <= u64::MAX,
                forall|q: int| #[trigger] self.primary.byte_at(q) == old_self.primary.byte_at(q),
                self.primary.spec_metadata() == old_self.primary.spec_metadata(),
                forall|jj: int, q: int| 0 <= jj < n ==> #[trigger] self.secondaries@[jj].byte_at(q)
                    == old_self.secondaries@[jj].byte_at(q),
                forall|jj: int| 0 <= jj < n ==> #[trigger] self.secondaries@[jj].spec_metadata()
                    == old_self.secondaries@[jj].spec_metadata(),
                self.primary.exact() == old_self.primary.exact(),
                forall|jj: int| 0 <= jj < n ==> #[trigger] self.secondaries@[jj].exact()
                    == old_self.secondaries@[jj].exact(),
                forall|o: int, l: int| #[trigger] self.primary.serves(o, l) == old_self.primary.serves(o, l),
                forall|jj: int, o: int, l: int| 0 <= jj < n ==> #[trigger] self.secondaries@[jj].serves(o, l)
                    == old_self.secondaries@[jj].serves(o, l),
                ex == old_self.exact(),
                length > 0,
                ex ==> (offset < primary_size ==> old_self.primary.serves(
                    offset as int,
                    if primary_size - offset <= length { primary_size - offset } else { length as int },
                )),
                ex ==> forall|jj: int| 0 <= jj < k ==> #[trigger] secondary_read_ok(
                    old_self.secondaries@[jj],
                    offset as int,
                    length as int,
                    pl,
                    bb,
                ),
                ex ==> forall|j: int| 0 <= j < length ==> #[trigger] buffer@[j] == xor_secondaries(
                    if 0 <= offset + j < primary_size { old_self.primary.byte_at(offset + j) } else { 0u8 },
                    old_self.secondaries@,
                    k as int,
                    offset + j,
                    pl,
                    bb,
                ),
            decreases n - k,
        {
            let ghost loop_secs = self.secondaries@;
            let mut sec = self.secondaries.remove(k);
            let ghost sec_before = sec;
            assert(sec_before == loop_secs[k as int]);
            let sec_size = sec.get_metadata().size;
            let ghost buf_before = buffer@;
            let result: Result<(), Error> = if sec_size == 0 {
                Ok(())
            } else if sec_size <= page_len {
                xor_periodic(&mut buffer, &mut sec, sec_size, offset, page_len)
            } else if sec_size <= block_bytes {
                xor_periodic(&mut buffer, &mut sec, sec_size, offset, block_bytes)
            } else {
                if offset < sec_size {
                    let left = sec_size - offset;
                    let readable: u32 = if left <= length as u64 { left as u32 } else { length };
                    match sec.read_bytes(offset, readable) {
                        Ok(sec_bytes) => {
                            let mut c: usize = 0;
                            while c < readable as usize
                                invariant
                                    c <= readable,
                                    readable <= length,
                                    buffer@.len() == length,
                                    sec_bytes@.len() == readable,
                                    forall|j: int| 0 <= j < length ==> #[trigger] buffer@[j] == if j < c {
                                        buf_before[j] ^ sec_bytes@[j]
                                    } else {
                                        buf_before[j]
                                    },
                                decreases readable - c,
                            {
                                buffer.set(c, buffer[c] ^ sec_bytes[c]);
                                c = c + 1;
                            }
                            Ok(())
                        },
                        Err(e) => Err(e),
                    }
                } else {
                    Ok(())
                }
            };
            proof {
                if ex {
                    let sk = old_self.secondaries@[k as int];
                    assert(sk.exact());
                    assert(sec_before.spec_metadata() == sk.spec_metadata());
                    assert forall|a: int, b: int| #[trigger] sec_before.serves(a, b) == sk.serves(a, b) by {
                        assert(loop_secs[k as int].serves(a, b) == old_self.secondaries@[k as int].serves(a, b));
                    }
                    lemma_secondary_read_ok_same(sec_before, sk, offset as int, length as int, pl, bb);
                    assert(result is Ok <==> secondary_read_ok(sec_before, offset as int, length as int, pl, bb));
                }
            }
            let ghost sec_now = sec;
            self.secondaries.insert(k, sec);
            proof {
                assert(self.secondaries@ == loop_secs.remove(k as int).insert(k as int, sec_now));
                assert forall|jj: int, q: int| 0 <= jj < n implies #[trigger] self.secondaries@[jj].byte_at(q)
                    == old_self.secondaries@[jj].byte_at(q) by {
                    if jj < k {
                        assert(self.secondaries@[jj] == loop_secs[jj]);
                    } else if jj > k {
                        assert(self.secondaries@[jj] == loop_secs[jj]);
                    }
                }
                assert forall|jj: int| 0 <= jj < n implies #[trigger] self.secondaries@[jj].spec_metadata()
                    == old_self.secondaries@[jj].spec_metadata() by {
                    if jj < k {
                        assert(self.secondaries@[jj] == loop_secs[jj]);
                    } else if jj > k {
                        assert(self.secondaries@[jj] == loop_secs[jj]);
                    }
                }
                assert forall|jj: int| 0 <= jj < n implies #[trigger] self.secondaries@[jj].exact()
                    == old_self.secondaries@[jj].exact() by {
                    if jj < k {
                        assert(self.secondaries@[jj] == loop_secs[jj]);
                    } else if jj > k {
                        assert(self.secondaries@[jj] == loop_secs[jj]);
                    }
                }
                assert forall|jj: int| 0 <= jj < n implies (#[trigger] self.secondaries@[jj]).wf() by {
                    if jj < k {
                        assert(self.secondaries@[jj] == loop_secs[jj]);
                    } else if jj > k {
                        assert(self.secondaries@[jj] == loop_secs[jj]);
                    }
                }
                assert forall|jj: int, o: int, l: int| 0 <= jj < n implies #[trigger] self.secondaries@[jj].serves(o, l)
                    == old_self.secondaries@[jj].serves(o, l) by {
                    if jj < k {
                        assert(self.secondaries@[jj] == loop_secs[jj]);
                    } else if jj > k {
                        assert(self.secondaries@[jj] == loop_secs[jj]);
                    }
                }
            }
            match result {
                Ok(()) => {},
                Err(e) => {
                    proof {
                        lemma_xor_same_stream(*self, old_self);
                        lemma_xor_same_exact(*self, old_self);
                        lemma_xor_same_serves(*self, old_self);
                        if ex {
                            let opl = old_self.metadata.page_length as int;
                            let obb = old_self.metadata.block_size as int * opl;
                            assert(opl == pl && obb == bb);
                            assert(!secondary_read_ok(old_self.secondaries@[k as int], offset as int, length as int, opl, obb));
                            assert(!old_self.serves(offset as int, length as int));
                        }
                    }
                    return Err(e);
                },
            }
            proof {
                if ex {
                let sk = old_self.secondaries@[k as int];
                assert(sk.exact());
                assert forall|j: int| 0 <= j < length implies #[trigger] buffer@[j] == xor_secondaries(
                    if 0 <= offset + j < primary_size { old_self.primary.byte_at(offset + j) } else { 0u8 },
                    old_self.secondaries@,
                    k + 1,
                    offset + j,
                    pl,
                    bb,
                ) by {
                    let pos = offset + j;
                    let s = sk.spec_metadata().size as int;
                    assert(sec_before.spec_metadata() == sk.spec_metadata());
                    assert(sec_size == s);
                    if s == 0 {
                        lemma_xor_zero(buf_before[j]);
                    } else if s <= pl {
                        assert(sec_size <= page_len);
                        assert(buffer@[j] == buf_before[j] ^ (if (offset + j) % (page_len as int) < sec_size {
                            sec_before.byte_at((offset + j) % (page_len as int))
                        } else {
                            0u8
                        }));
                        assert(sec_before.byte_at(pos % pl) == sk.byte_at(pos % pl));
                    } else if s <= bb {
                        assert(sec_size > page_len && sec_size <= block_bytes);
                        assert(buffer@[j] == buf_before[j] ^ (if (offset + j) % (block_bytes as int) < sec_size {
                            sec_before.byte_at((offset + j) % (block_bytes as int))
                        } else {
                            0u8
                        }));
                        assert(sec_before.byte_at(pos % bb) == sk.byte_at(pos % bb));
                    } else {
                        if pos < s {
                            assert(j < s - offset);
                            assert(sec_before.byte_at(pos) == sk.byte_at(pos));
                        } else {
                            lemma_xor_zero(buf_before[j]);
                        }
                    }
                }
                }
            }
            k = k + 1;
        }
        if self.static_pattern.len() > 0 {
            let plen_usize = self.static_pattern.len();
            let pat_len = plen_usize as u64;
            let ghost buf_before = buffer@;
            let mut i: usize = 0;
            while i < length as usize
                invariant
                    i <= length,
                    buffer@.len() == length,
                    pat_len == self.static_pattern@.len(),
                    pat_len == plen_usize,
                    pat_len > 0,
                    offset + length <= u64::MAX,
                    forall|j: int| 0 <= j < length ==> #[trigger] buffer@[j] == if j < i {
                        buf_before[j] ^ self.static_pattern@[(offset + j) % (pat_len as int)]
                    } else {
                        buf_before[j]
                    },
                decreases length - i,
            {
                let pos = offset + i as u64;
                assert(pos == offset + i);
                let m = pos % pat_len;
                assert(m < pat_len);
                let pidx = m as usize;
                assert(pidx == (offset + i) % (pat_len as int));
                let pat_byte = self.static_pattern[pidx];
                buffer.set(i, buffer[i] ^ pat_byte);
                i = i + 1;
            }
        }
        proof {
            lemma_xor_same_stream(*self, old_self);
            lemma_xor_same_exact(*self, old_self);
            lemma_xor_same_serves(*self, old_self);
        }
        Ok(buffer)
    }

    fn get_metadata(&self) -> (m: FileMetadata) {
        self.metadata.duplicate()
    }

    fn cache_identity(&self) -> (s: String)
        ensures
            s@ == self.identity@,
    {
        self.identity.clone()
    }
}

proof fn lemma_xor_same_exact<P: DumpDataProvider>(a: XorDataProvider<P>, b: XorDataProvider<P>)
    requires
        a.secondaries@.len() == b.secondaries@.len(),
        a.primary.exact() == b.primary.exact(),
        forall|j: int| 0 <= j < a.secondaries@.len() ==> #[trigger] a.secondaries@[j].exact()
            == b.secondaries@[j].exact(),
    ensures
        a.exact() == b.exact(),
{
    if a.exact() {
        assert forall|k: int| 0 <= k < b.secondaries@.len() implies (#[trigger] b.secondaries@[k]).exact() by {
            assert(a.secondaries@[k].exact());
        }
    }
    if b.exact() {
        assert forall|k: int| 0 <= k < a.secondaries@.len() implies (#[trigger] a.secondaries@[k]).exact() by {
            assert(b.secondaries@[k].exact());
        }
    }
}

proof fn lemma_xor_secondaries_same<P: DumpDataProvider>(acc: u8, a: Seq<P>, b: Seq<P>, k: int, pos: int, pl: int, bb: int)
    requires
        a.len() == b.len(),
        forall|j: int, q: int| 0 <= j < a.len() ==> #[trigger] a[j].byte_at(q) == b[j].byte_at(q),
        forall|j: int| 0 <= j < a.len() ==> #[trigger] a[j].spec_metadata() == b[j].spec_metadata(),
    ensures
        xor_secondaries(acc, a, k, pos, pl, bb) == xor_secondaries(acc, b, k, pos, pl, bb),
    decreases k,
{
    if k > 0 && k <= a.len() {
        lemma_xor_secondaries_same(acc, a, b, k - 1, pos, pl, bb);
        let s = a[k - 1].spec_metadata().size as int;
        assert(a[k - 1].spec_metadata() == b[k - 1].spec_metadata());
        assert(a[k - 1].byte_at(pos % pl) == b[k - 1].byte_at(pos % pl));
        assert(a[k - 1].byte_at(pos % bb) == b[k - 1].byte_at(pos % bb));
        assert(a[k - 1].byte_at(pos) == b[k - 1].byte_at(pos));
    }
}

proof fn lemma_xor_same_stream<P: DumpDataProvider>(a: XorDataProvider<P>, b: XorDataProvider<P>)
    requires
        a.secondaries@.len() == b.secondaries@.len(),
        a.metadata == b.metadata,
        a.static_pattern@ == b.static_pattern@,
        a.primary.spec_metadata() == b.primary.spec_metadata(),
        forall|q: int| #[trigger] a.primary.byte_at(q) == b.primary.byte_at(q),
        forall|j: int, q: int| 0 <= j < a.secondaries@.len() ==> #[trigger] a.secondaries@[j].byte_at(q)
            == b.secondaries@[j].byte_at(q),
        forall|j: int| 0 <= j < a.secondaries@.len() ==> #[trigger] a.secondaries@[j].spec_metadata()
            == b.secondaries@[j].spec_metadata(),
    ensures
        forall|p: int| #[trigger] a.byte_at(p) == b.byte_at(p),
{
    assert forall|p: int| #[trigger] a.byte_at(p) == b.byte_at(p) by {
        let pl = a.metadata.page_length as int;
        let bb = a.metadata.block_size as int * pl;
        let prim = if 0 <= p < a.primary_size() { a.primary.byte_at(p) } else { 0u8 };
        lemma_xor_secondaries_same(prim, a.secondaries@, b.secondaries@, a.secondaries@.len() as int, p, pl, bb);
    }
}

proof fn lemma_secondary_read_ok_same<P: DumpDataProvider>(x: P, y: P, o: int, l: int, pl: int, bb: int)
    requires
        x.spec_metadata().size == y.spec_metadata().size,
        forall|a: int, b: int| #[trigger] x.serves(a, b) == y.serves(a, b),
    ensures
        secondary_read_ok(x, o, l, pl, bb) == secondary_read_ok(y, o, l, pl, bb),
{
    let s = x.spec_metadata().size as int;
    assert forall|t: int| #[trigger] periodic_chunk_ok(x, s, o, l, pl, t) == periodic_chunk_ok(y, s, o, l, pl, t) by {
        let ps = t * pl;
        let cs = if o >= ps { o } else { ps };
        let ce = if o + l <= ps + s { o + l } else { ps + s };
        assert(x.serves(cs - ps, ce - cs) == y.serves(cs - ps, ce - cs));
    }
    assert forall|t: int| #[trigger] periodic_chunk_ok(x, s, o, l, bb, t) == periodic_chunk_ok(y, s, o, l, bb, t) by {
        let ps = t * bb;
        let cs = if o >= ps { o } else { ps };
        let ce = if o + l <= ps + s { o + l } else { ps + s };
        assert(x.serves(cs - ps, ce - cs) == y.serves(cs - ps, ce - cs));
    }
    if periodic_ok(x, s, o, l, pl) {
        assert forall|t: int| 0 <= t implies #[trigger] periodic_chunk_ok(y, s, o, l, pl, t) by {
            assert(periodic_chunk_ok(x, s, o, l, pl, t));
        }
    }
    if periodic_ok(y, s, o, l, pl) {
        assert forall|t: int| 0 <= t implies #[trigger] periodic_chunk_ok(x, s, o, l, pl, t) by {
            assert(periodic_chunk_ok(y, s, o, l, pl, t));
        }
    }
    if periodic_ok(x, s, o, l, bb) {
        assert forall|t: int| 0 <= t implies #[trigger] periodic_chunk_ok(y, s, o, l, bb, t) by {
            assert(periodic_chunk_ok(x, s, o, l, bb, t));
        }
    }
    if periodic_ok(y, s, o, l, bb) {
        assert forall|t: int| 0 <= t implies #[trigger] periodic_chunk_ok(x, s, o, l, bb, t) by {
            assert(periodic_chunk_ok(y, s, o, l, bb, t));
        }
    }
    let len = if s - o <= l { s - o } else { l };
    assert(x.serves(o, len) == y.serves(o, len));
}

proof fn lemma_xor_same_serves<P: DumpDataProvider>(a: XorDataProvider<P>, b: XorDataProvider<P>)
    requires
        a.secondaries@.len() == b.secondaries@.len(),
        a.metadata == b.metadata,
        a.primary.spec_metadata() == b.primary.spec_metadata(),
        forall|o: int, l: int| #[trigger] a.primary.serves(o, l) == b.primary.serves(o, l),
        forall|j: int, o: int, l: int| 0 <= j < a.secondaries@.len() ==> #[trigger] a.secondaries@[j].serves(o, l)
            == b.secondaries@[j].serves(o, l),
        forall|j: int| 0 <= j < a.secondaries@.len() ==> #[trigger] a.secondaries@[j].spec_metadata()
            == b.secondaries@[j].spec_metadata(),
    ensures
        forall|o: int, l: int| #[trigger] a.serves(o, l) == b.serves(o, l),
{
    let pl = a.metadata.page_length as int;
    let bb = a.metadata.block_size as int * pl;
    assert forall|o: int, l: int| #[trigger] a.serves(o, l) == b.serves(o, l) by {
        assert forall|k: int| 0 <= k < a.secondaries@.len() implies #[trigger] secondary_read_ok(
            a.secondaries@[k],
            o,
            l,
            pl,
            bb,
        ) == secondary_read_ok(b.secondaries@[k], o, l, pl, bb) by {
            assert forall|x: int, y: int| #[trigger] a.secondaries@[k].serves(x, y) == b.secondaries@[k].serves(x, y) by {
            }
            lemma_secondary_read_ok_same(a.secondaries@[k], b.secondaries@[k], o, l, pl, bb);
        }
        let ps = a.primary_size();
        let len = if ps - o <= l { ps - o } else { l };
        assert(a.primary.serves(o, len) == b.primary.serves(o, len));
        if a.serves(o, l) && l != 0 {
            assert forall|k: int| 0 <= k < b.secondaries@.len() implies #[trigger] secondary_read_ok(
                b.secondaries@[k],
                o,
                l,
                pl,
                bb,
            ) by {
                assert(secondary_read_ok(a.secondaries@[k], o, l, pl, bb));
            }
        }
        if b.serves(o, l) && l != 0 {
            assert forall|k: int| 0 <= k < a.secondaries@.len() implies #[trigger] secondary_read_ok(
                a.secondaries@[k],
                o,
                l,
                pl,
                bb,
            ) by {
                assert(secondary_read_ok(b.secondaries@[k], o, l, pl, bb));
            }
        }
    }
}

proof fn lemma_xor_zero(b: u8)
    ensures
        b ^ 0u8 == b,
{
    assert(b ^ 0u8 == b) by (bit_vector);
}

} // verus!
