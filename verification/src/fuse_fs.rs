//! Decisions of the virtual dump filesystem: the attributes of each node,
//! name lookup, reads, directory listings and extended attributes. The
//! kernel-facing session only carries these answers to the kernel.

use vstd::prelude::*;
use crate::fuse_node::{
    InodeKind, spec_parse_inode, parse_inode, parse_inode_ok, shifted_block, inode_for_block_dir,
    inode_for_block_page, inode_for_flat_page, INODE_ROOT, INODE_DUMP_BIN, INODE_META_JSON,
    INODE_BLOCKS_DIR, INODE_PAGES_DIR, INODE_BLOCK_DIR_BASE, INODE_BLOCK_PAGE_BASE, INODE_FLAT_PAGE_BASE,
};
use crate::text::{
    lemma_padded_dec_parses,
    chars_of, chars_equal, has_prefix, slice_chars, parse_unsigned_chars, parse_unsigned, padded_dec,
    push_padded_decimal, push_str, push_decimal, dec_digits, string_from_chars,
};
use crate::types::FileMetadata;

verus! {

/// Kind of a filesystem node.
#[derive(Debug, Clone, Copy, PartialEq, Eq, Structural)]
pub enum EntryType {
    Directory,
    RegularFile,
}

/// The attributes of a node that the filesystem decides (owner and times
/// are filled in by the session).
#[derive(Debug, Clone, Copy, PartialEq, Eq, Structural)]
pub struct NodeAttr {
    pub ino: u64,
    pub size: u64,
    pub blocks: u64,
    pub kind: EntryType,
    pub perm: u16,
    pub nlink: u32,
    pub blksize: u32,
}

/// The dump geometry keeps every inode and byte offset of the filesystem in
/// 64 bits.
pub open spec fn fs_geometry_ok(m: FileMetadata, meta_json_len: u64) -> bool {
    &&& m.size as int + 511 <= u64::MAX
    &&& meta_json_len as int + 511 <= u64::MAX
    &&& m.total_pages as int * m.page_length as int <= u64::MAX
    &&& m.total_blocks as int * m.block_size as int <= u64::MAX
    &&& INODE_BLOCK_PAGE_BASE + m.total_blocks as int * 0x10000 + m.block_size as int <= u64::MAX
    &&& INODE_FLAT_PAGE_BASE + m.total_pages as int <= u64::MAX
}

/// Classification of an inode against the dump's geometry.
pub open spec fn kind_of(m: FileMetadata, ino: u64) -> InodeKind {
    spec_parse_inode(ino, m.block_size, m.total_pages, m.total_blocks)
}

pub open spec fn dir_attr(ino: u64, nlink: u32) -> NodeAttr {
    NodeAttr { ino, size: 0, blocks: 0, kind: EntryType::Directory, perm: 0o555, nlink, blksize: 4096 }
}

pub open spec fn file_attr(ino: u64, size: u64, blksize: u32) -> NodeAttr {
    NodeAttr {
        ino,
        size,
        blocks: ((size + 511) / 512) as u64,
        kind: EntryType::RegularFile,
        perm: 0o444,
        nlink: 1,
        blksize,
    }
}

pub open spec fn max_u32(a: u32, b: u32) -> u32 {
    if a >= b { a } else { b }
}

/// The attributes of node `ino` of the given kind: read-only directories and
/// files; `dump.bin` holds the whole dump, `meta.json` the metadata text and
/// each page file one page.
pub open spec fn spec_node_attr(m: FileMetadata, meta_json_len: u64, kind: InodeKind, ino: u64) -> Option<NodeAttr> {
    match kind {
        InodeKind::Root => Some(dir_attr(ino, 4)),
        InodeKind::DumpBin => Some(file_attr(ino, m.size, max_u32(m.page_length, 4096))),
        InodeKind::MetaJson => Some(file_attr(ino, meta_json_len, 4096)),
        InodeKind::BlocksDir => Some(
            dir_attr(ino, (2 + if m.total_blocks <= 65535 { m.total_blocks as int } else { 65535 }) as u32),
        ),
        InodeKind::PagesDir => Some(dir_attr(ino, 2)),
        InodeKind::BlockDir(_) => Some(dir_attr(ino, 2)),
        InodeKind::BlockPage { .. } => Some(file_attr(ino, m.page_length as u64, max_u32(m.page_length, 512))),
        InodeKind::FlatPage(_) => Some(file_attr(ino, m.page_length as u64, max_u32(m.page_length, 512))),
        InodeKind::Unknown => None,
    }
}

/// `name` with the characters of `pre` removed from its start and those of
/// `suf` from its end, when it has both and they do not overlap.
pub open spec fn strip_affixes(name: Seq<char>, pre: Seq<char>, suf: Seq<char>) -> Option<Seq<char>> {
    if pre.len() + suf.len() <= name.len() && name.subrange(0, pre.len() as int) == pre && name.subrange(
        name.len() - suf.len(),
        name.len() as int,
    ) == suf {
        Some(name.subrange(pre.len() as int, name.len() - suf.len()))
    } else {
        None
    }
}

/// The node that `name` names inside directory `parent`: the four entries of
/// the root, `block_N` in `blocks/`, `page_N.bin` in a block directory and in
/// `pages/` (N in decimal, leading zeros allowed, for an existing block or page).
pub open spec fn spec_lookup(m: FileMetadata, meta_json_len: u64, parent: u64, name: Seq<char>) -> Option<NodeAttr> {
    match kind_of(m, parent) {
        InodeKind::Root => if name == "dump.bin"@ {
            spec_node_attr(m, meta_json_len, InodeKind::DumpBin, INODE_DUMP_BIN)
        } else if name == "meta.json"@ {
            spec_node_attr(m, meta_json_len, InodeKind::MetaJson, INODE_META_JSON)
        } else if name == "blocks"@ {
            spec_node_attr(m, meta_json_len, InodeKind::BlocksDir, INODE_BLOCKS_DIR)
        } else if name == "pages"@ {
            spec_node_attr(m, meta_json_len, InodeKind::PagesDir, INODE_PAGES_DIR)
        } else {
            None
        },
        InodeKind::BlocksDir => match strip_affixes(name, "block_"@, seq![]) {
            Some(rest) => match parse_unsigned(rest, u64::MAX as int) {
                Some(b) => if b < m.total_blocks {
                    spec_node_attr(
                        m,
                        meta_json_len,
                        InodeKind::BlockDir(b as u64),
                        (INODE_BLOCK_DIR_BASE + b) as u64,
                    )
                } else {
                    None
                },
                None => None,
            },
            None => None,
        },
        InodeKind::BlockDir(block_idx) => match strip_affixes(name, "page_"@, ".bin"@) {
            Some(rest) => match parse_unsigned(rest, u32::MAX as int) {
                Some(p) => {
                    let page_idx = block_idx * m.block_size + p;
                    if p < m.block_size && page_idx < m.total_pages {
                        spec_node_attr(
                            m,
                            meta_json_len,
                            InodeKind::BlockPage { block_idx, page_in_block: p as u32, page_idx: page_idx as u64 },
                            (INODE_BLOCK_PAGE_BASE + shifted_block(block_idx) + p) as u64,
                        )
                    } else {
                        None
                    }
                },
                None => None,
            },
            None => None,
        },
        InodeKind::PagesDir => match strip_affixes(name, "page_"@, ".bin"@) {
            Some(rest) => match parse_unsigned(rest, u64::MAX as int) {
                Some(p) => if p < m.total_pages {
                    spec_node_attr(
                        m,
                        meta_json_len,
                        InodeKind::FlatPage(p as u64),
                        (INODE_FLAT_PAGE_BASE + p) as u64,
                    )
                } else {
                    None
                },
                None => None,
            },
            None => None,
        },
        _ => None,
    }
}

/// What a read answers.
#[derive(Debug, Clone, Copy, PartialEq, Eq, Structural)]
pub enum ReadReply {
    /// No such file (or a negative offset).
    NotFound,
    /// Nothing left to read at the offset.
    Empty,
    /// The bytes `start..end` of the metadata text.
    MetaJson { start: u64, end: u64 },
    /// `len` bytes of the dump from `offset`.
    Provider { offset: u64, len: u32 },
}

pub open spec fn min_int(a: int, b: int) -> int {
    if a <= b { a } else { b }
}

/// The answer to reading `size` bytes at `offset` of node `ino`.
pub open spec fn spec_read(m: FileMetadata, meta_json_len: u64, ino: u64, offset: i64, size: u32) -> ReadReply {
    if offset < 0 {
        ReadReply::NotFound
    } else {
        let off = offset as int;
        match kind_of(m, ino) {
            InodeKind::DumpBin => if off >= m.size {
                ReadReply::Empty
            } else {
                ReadReply::Provider { offset: off as u64, len: min_int(m.size - off, size as int) as u32 }
            },
            InodeKind::MetaJson => if off >= meta_json_len {
                ReadReply::Empty
            } else {
                ReadReply::MetaJson { start: off as u64, end: min_int(off + size, meta_json_len as int) as u64 }
            },
            InodeKind::BlockPage { page_idx, .. } => spec_page_read(m, page_idx, off, size),
            InodeKind::FlatPage(page_idx) => spec_page_read(m, page_idx, off, size),
            _ => ReadReply::NotFound,
        }
    }
}

pub open spec fn spec_page_read(m: FileMetadata, page_idx: u64, off: int, size: u32) -> ReadReply {
    let pl = m.page_length as int;
    if off >= pl {
        ReadReply::Empty
    } else {
        ReadReply::Provider { offset: (page_idx * pl + off) as u64, len: min_int(pl - off, size as int) as u32 }
    }
}

/// Number of entries listed in directory `kind`, `None` when it is not a
/// directory: the root's six, `.`, `..` and one per block, `.`, `..` and one
/// per page of a block, `.`, `..` and the first (at most) 1000 flat pages.
pub open spec fn spec_dir_len(m: FileMetadata, kind: InodeKind) -> Option<int> {
    match kind {
        InodeKind::Root => Some(6),
        InodeKind::BlocksDir => Some(2 + m.total_blocks),
        InodeKind::BlockDir(_) => Some(2 + m.block_size),
        InodeKind::PagesDir => Some(2 + min_int(m.total_pages as int, 1000)),
        _ => None,
    }
}

/// Entry `j` of a directory listing; its listing offset is `j + 1`.
pub struct DirEntry {
    pub ino: u64,
    pub offset: i64,
    pub kind: EntryType,
    pub name: String,
}

/// Inode, type and name of entry `j` of directory `ino` of the given kind.
pub open spec fn spec_dir_entry(m: FileMetadata, ino: u64, kind: InodeKind, j: int) -> (u64, EntryType, Seq<char>) {
    match kind {
        InodeKind::Root => if j == 0 {
            (INODE_ROOT, EntryType::Directory, "."@)
        } else if j == 1 {
            (INODE_ROOT, EntryType::Directory, ".."@)
        } else if j == 2 {
            (INODE_DUMP_BIN, EntryType::RegularFile, "dump.bin"@)
        } else if j == 3 {
            (INODE_META_JSON, EntryType::RegularFile, "meta.json"@)
        } else if j == 4 {
            (INODE_BLOCKS_DIR, EntryType::Directory, "blocks"@)
        } else {
            (INODE_PAGES_DIR, EntryType::Directory, "pages"@)
        },
        InodeKind::BlocksDir => if j == 0 {
            (INODE_BLOCKS_DIR, EntryType::Directory, "."@)
        } else if j == 1 {
            (INODE_ROOT, EntryType::Directory, ".."@)
        } else {
            (
                (INODE_BLOCK_DIR_BASE + j - 2) as u64,
                EntryType::Directory,
                "block_"@ + padded_dec((j - 2) as nat, 4),
            )
        },
        InodeKind::BlockDir(block_idx) => if j == 0 {
            (ino, EntryType::Directory, "."@)
        } else if j == 1 {
            (INODE_BLOCKS_DIR, EntryType::Directory, ".."@)
        } else {
            (
                (INODE_BLOCK_PAGE_BASE + shifted_block(block_idx) + j - 2) as u64,
                EntryType::RegularFile,
                "page_"@ + padded_dec((j - 2) as nat, 2) + ".bin"@,
            )
        },
        _ => if j == 0 {
            (INODE_PAGES_DIR, EntryType::Directory, "."@)
        } else if j == 1 {
            (INODE_ROOT, EntryType::Directory, ".."@)
        } else {
            (
                (INODE_FLAT_PAGE_BASE + j - 2) as u64,
                EntryType::RegularFile,
                "page_"@ + padded_dec((j - 2) as nat, 6) + ".bin"@,
            )
        },
    }
}

/// Index of the first entry listed after listing offset `offset`: entries
/// already returned are skipped. A block directory reduces the page part of
/// the offset to 32 bits.
pub open spec fn spec_readdir_start(kind: InodeKind, offset: i64) -> int {
    if offset < 0 {
        0
    } else {
        match kind {
            InodeKind::BlockDir(_) => if offset >= 2 {
                2 + (offset - 2) % 0x1_0000_0000
            } else {
                offset as int
            },
            _ => offset as int,
        }
    }
}

/// What an extended-attribute request answers.
#[derive(Debug, Clone, PartialEq, Eq)]
pub enum XattrReply {
    /// The size the value needs (asked with size 0).
    Size(u32),
    /// The value itself.
    Data(String),
    /// The caller's buffer is too small.
    RangeError,
    /// No such attribute.
    NoData,
}

/// Value of extended attribute `name` of node `kind`: the dump's page size,
/// block size, page count and byte size, in decimal, on the root and on
/// `dump.bin` only.
pub open spec fn spec_xattr_value(m: FileMetadata, kind: InodeKind, name: Seq<char>) -> Option<Seq<char>> {
    if !(kind is Root || kind is DumpBin) {
        None
    } else if name == "user.nand.page_size"@ {
        Some(dec_digits(m.page_length as nat))
    } else if name == "user.nand.block_size"@ {
        Some(dec_digits(m.block_size as nat))
    } else if name == "user.nand.total_pages"@ {
        Some(dec_digits(m.total_pages as nat))
    } else if name == "user.nand.total_size"@ {
        Some(dec_digits(m.size as nat))
    } else {
        None
    }
}

/// The NUL-separated list of the extended attribute names.
pub open spec fn xattr_names() -> Seq<char> {
    "user.nand.page_size\0user.nand.block_size\0user.nand.total_pages\0user.nand.total_size\0"@
}

fn sized_answer(value: String, size: u32) -> (r: XattrReply)
    requires
        value@.len() <= u32::MAX,
    ensures
        size == 0 ==> r == XattrReply::Size(value@.len() as u32),
        size != 0 && size >= value@.len() ==> r == XattrReply::Data(value),
        size != 0 && size < value@.len() ==> r == XattrReply::RangeError,
{
    let len = crate::text::chars_of(value.as_str()).len();
    if size == 0 {
        XattrReply::Size(len as u32)
    } else if size as usize >= len {
        XattrReply::Data(value)
    } else {
        XattrReply::RangeError
    }
}

fn attr_dir(ino: u64, nlink: u32) -> (a: NodeAttr)
    ensures
        a == dir_attr(ino, nlink),
{
    NodeAttr { ino, size: 0, blocks: 0, kind: EntryType::Directory, perm: 0o555, nlink, blksize: 4096 }
}

fn attr_file(ino: u64, size: u64, blksize: u32) -> (a: NodeAttr)
    requires
        size as int + 511 <= u64::MAX,
    ensures
        a == file_attr(ino, size, blksize),
{
    NodeAttr {
        ino,
        size,
        blocks: (size + 511) / 512,
        kind: EntryType::RegularFile,
        perm: 0o444,
        nlink: 1,
        blksize,
    }
}

/// The attributes of node `ino` of the given kind (`None` for an unknown node).
pub fn file_attr_for_kind(m: &FileMetadata, meta_json_len: u64, kind: InodeKind, ino: u64) -> (r: Option<NodeAttr>)
    requires
        fs_geometry_ok(*m, meta_json_len),
    ensures
        r == spec_node_attr(*m, meta_json_len, kind, ino),
{
    match kind {
        InodeKind::Root => Some(attr_dir(ino, 4)),
        InodeKind::DumpBin => Some(
            attr_file(ino, m.size, if m.page_length >= 4096 { m.page_length } else { 4096 }),
        ),
        InodeKind::MetaJson => Some(attr_file(ino, meta_json_len, 4096)),
        InodeKind::BlocksDir => {
            let capped: u32 = if m.total_blocks <= 65535 { m.total_blocks as u32 } else { 65535 };
            Some(attr_dir(ino, 2 + capped))
        },
        InodeKind::PagesDir => Some(attr_dir(ino, 2)),
        InodeKind::BlockDir(_) => Some(attr_dir(ino, 2)),
        InodeKind::BlockPage { .. } | InodeKind::FlatPage(_) => Some(
            attr_file(ino, m.page_length as u64, if m.page_length >= 512 { m.page_length } else { 512 }),
        ),
        InodeKind::Unknown => None,
    }
}

/// The attributes of node `ino` (`getattr`); `None` answers "no such file".
pub fn getattr(m: &FileMetadata, meta_json_len: u64, ino: u64) -> (r: Option<NodeAttr>)
    requires
        fs_geometry_ok(*m, meta_json_len),
        parse_inode_ok(ino, m.block_size),
    ensures
        r == spec_node_attr(*m, meta_json_len, kind_of(*m, ino), ino),
{
    let kind = parse_inode(ino, m.block_size, m.total_pages, m.total_blocks);
    file_attr_for_kind(m, meta_json_len, kind, ino)
}

fn strip(name: &[char], pre: &str, suf: &str) -> (r: Option<Vec<char>>)
    ensures
        match strip_affixes(name@, pre@, suf@) {
            Some(rest) => r matches Some(v) && v@ == rest,
            None => r is None,
        },
{
    let p = chars_of(pre);
    let s = chars_of(suf);
    if p.len() > name.len() || s.len() > name.len() - p.len() {
        return None;
    }
    let tail = slice_chars(name, name.len() - s.len(), name.len());
    if !has_prefix(name, pre) || !chars_equal(tail.as_slice(), suf) {
        return None;
    }
    Some(slice_chars(name, p.len(), name.len() - s.len()))
}

/// The node that `name` names in directory `parent` (`lookup`); `None`
/// answers "no such file".
pub fn lookup(m: &FileMetadata, meta_json_len: u64, parent: u64, name: &str) -> (r: Option<NodeAttr>)
    requires
        fs_geometry_ok(*m, meta_json_len),
        parse_inode_ok(parent, m.block_size),
    ensures
        r == spec_lookup(*m, meta_json_len, parent, name@),
{
    let chars = chars_of(name);
    let n = chars.as_slice();
    match parse_inode(parent, m.block_size, m.total_pages, m.total_blocks) {
        InodeKind::Root => {
            if chars_equal(n, "dump.bin") {
                file_attr_for_kind(m, meta_json_len, InodeKind::DumpBin, INODE_DUMP_BIN)
            } else if chars_equal(n, "meta.json") {
                file_attr_for_kind(m, meta_json_len, InodeKind::MetaJson, INODE_META_JSON)
            } else if chars_equal(n, "blocks") {
                file_attr_for_kind(m, meta_json_len, InodeKind::BlocksDir, INODE_BLOCKS_DIR)
            } else if chars_equal(n, "pages") {
                file_attr_for_kind(m, meta_json_len, InodeKind::PagesDir, INODE_PAGES_DIR)
            } else {
                None
            }
        },
        InodeKind::BlocksDir => {
            proof {
                reveal_strlit("");
                assert(""@ =~= Seq::<char>::empty());
            }
            match strip(n, "block_", "") {
                Some(rest) => match parse_unsigned_chars(rest.as_slice(), u64::MAX) {
                    Some(b) => if b < m.total_blocks {
                        file_attr_for_kind(m, meta_json_len, InodeKind::BlockDir(b), inode_for_block_dir(b))
                    } else {
                        None
                    },
                    None => None,
                },
                None => None,
            }
        },
        InodeKind::BlockDir(block_idx) => match strip(n, "page_", ".bin") {
            Some(rest) => match parse_unsigned_chars(rest.as_slice(), 0xFFFF_FFFF) {
                Some(p64) => {
                    let p = p64 as u32;
                    if p < m.block_size {
                        proof {
                            assert(block_idx * m.block_size + p <= m.total_blocks * m.block_size) by (
                            nonlinear_arith)
                                requires
                                    block_idx < m.total_blocks,
                                    p < m.block_size,
                            ;
                        }
                        let page_idx = block_idx * (m.block_size as u64) + (p as u64);
                        if page_idx < m.total_pages {
                            proof {
                                assert(block_idx * 0x10000 < m.total_blocks * 0x10000) by (nonlinear_arith)
                                    requires
                                        block_idx < m.total_blocks,
                                ;
                                assert(shifted_block(block_idx) == block_idx * 0x10000);
                            }
                            let ino = inode_for_block_page(block_idx, p);
                            file_attr_for_kind(
                                m,
                                meta_json_len,
                                InodeKind::BlockPage { block_idx, page_in_block: p, page_idx },
                                ino,
                            )
                        } else {
                            None
                        }
                    } else {
                        None
                    }
                },
                None => None,
            },
            None => None,
        },
        InodeKind::PagesDir => match strip(n, "page_", ".bin") {
            Some(rest) => match parse_unsigned_chars(rest.as_slice(), u64::MAX) {
                Some(p) => if p < m.total_pages {
                    file_attr_for_kind(m, meta_json_len, InodeKind::FlatPage(p), inode_for_flat_page(p))
                } else {
                    None
                },
                None => None,
            },
            None => None,
        },
        _ => None,
    }
}

/// The answer to reading `size` bytes at `offset` of node `ino` (`read`).
pub fn read(m: &FileMetadata, meta_json_len: u64, ino: u64, offset: i64, size: u32) -> (r: ReadReply)
    requires
        fs_geometry_ok(*m, meta_json_len),
        parse_inode_ok(ino, m.block_size),
    ensures
        r == spec_read(*m, meta_json_len, ino, offset, size),
{
    if offset < 0 {
        return ReadReply::NotFound;
    }
    let off = offset as u64;
    match parse_inode(ino, m.block_size, m.total_pages, m.total_blocks) {
        InodeKind::DumpBin => {
            if off >= m.size {
                ReadReply::Empty
            } else {
                let left = m.size - off;
                let len = if left <= size as u64 { left as u32 } else { size };
                ReadReply::Provider { offset: off, len }
            }
        },
        InodeKind::MetaJson => {
            if off >= meta_json_len {
                ReadReply::Empty
            } else {
                let want = off + size as u64;
                let end = if want <= meta_json_len { want } else { meta_json_len };
                ReadReply::MetaJson { start: off, end }
            }
        },
        InodeKind::BlockPage { page_idx, .. } | InodeKind::FlatPage(page_idx) => {
            let pl = m.page_length as u64;
            if off >= pl {
                ReadReply::Empty
            } else {
                proof {
                    assert(page_idx * pl + off < m.total_pages * pl) by (nonlinear_arith)
                        requires
                            page_idx < m.total_pages,
                            off < pl,
                    ;
                }
                let left = pl - off;
                let len = if left <= size as u64 { left as u32 } else { size };
                ReadReply::Provider { offset: page_idx * pl + off, len }
            }
        },
        _ => ReadReply::NotFound,
    }
}

/// Index of the first entry to list after listing offset `offset` in
/// directory `ino`; `None` when `ino` is not a directory.
pub fn readdir_start(m: &FileMetadata, ino: u64, offset: i64) -> (r: Option<u64>)
    requires
        parse_inode_ok(ino, m.block_size),
    ensures
        spec_dir_len(*m, kind_of(*m, ino)) is None ==> r is None,
        spec_dir_len(*m, kind_of(*m, ino)) is Some ==> r == Some(
            spec_readdir_start(kind_of(*m, ino), offset) as u64,
        ),
{
    let kind = parse_inode(ino, m.block_size, m.total_pages, m.total_blocks);
    match kind {
        InodeKind::Root | InodeKind::BlocksDir | InodeKind::PagesDir => {
            if offset < 0 {
                Some(0)
            } else {
                Some(offset as u64)
            }
        },
        InodeKind::BlockDir(_) => {
            if offset < 0 {
                Some(0)
            } else if offset >= 2 {
                let low = #[verifier::truncate] ((offset - 2) as u32);
                proof {
                    assert(low == (offset - 2) % 0x1_0000_0000) by (bit_vector)
                        requires
                            low == #[verifier::truncate] ((offset - 2) as u32),
                            offset >= 2,
                    ;
                }
                Some(2 + low as u64)
            } else {
                Some(offset as u64)
            }
        },
        _ => None,
    }
}

/// Entry `j` of directory `ino` (offset `j + 1`), or `None` past the end of
/// the listing or when `ino` is not a directory.
pub fn dir_entry(m: &FileMetadata, ino: u64, j: u64) -> (r: Option<DirEntry>)
    requires
        fs_geometry_ok(*m, 0),
        parse_inode_ok(ino, m.block_size),
    ensures
        match spec_dir_len(*m, kind_of(*m, ino)) {
            Some(len) => if j < len {
                r matches Some(e) && e.offset == j + 1 && (e.ino, e.kind, e.name@) == spec_dir_entry(
                    *m,
                    ino,
                    kind_of(*m, ino),
                    j as int,
                )
            } else {
                r is None
            },
            None => r is None,
        },
{
    let kind = parse_inode(ino, m.block_size, m.total_pages, m.total_blocks);
    let len: u64 = match kind {
        InodeKind::Root => 6,
        InodeKind::BlocksDir => {
            if m.total_blocks > u64::MAX - 2 {
                return None;
            }
            2 + m.total_blocks
        },
        InodeKind::BlockDir(_) => 2 + m.block_size as u64,
        InodeKind::PagesDir => 2 + if m.total_pages <= 1000 { m.total_pages } else { 1000 },
        _ => return None,
    };
    if j >= len {
        return None;
    }
    if j > i64::MAX as u64 - 1 {
        return None;
    }
    let offset = (j + 1) as i64;
    let (e_ino, e_kind, name): (u64, EntryType, Vec<char>) = match kind {
        InodeKind::Root => {
            if j == 0 {
                (INODE_ROOT, EntryType::Directory, chars_of("."))
            } else if j == 1 {
                (INODE_ROOT, EntryType::Directory, chars_of(".."))
            } else if j == 2 {
                (INODE_DUMP_BIN, EntryType::RegularFile, chars_of("dump.bin"))
            } else if j == 3 {
                (INODE_META_JSON, EntryType::RegularFile, chars_of("meta.json"))
            } else if j == 4 {
                (INODE_BLOCKS_DIR, EntryType::Directory, chars_of("blocks"))
            } else {
                (INODE_PAGES_DIR, EntryType::Directory, chars_of("pages"))
            }
        },
        InodeKind::BlocksDir => {
            if j == 0 {
                (INODE_BLOCKS_DIR, EntryType::Directory, chars_of("."))
            } else if j == 1 {
                (INODE_ROOT, EntryType::Directory, chars_of(".."))
            } else {
                let b = j - 2;
                let mut nm = chars_of("block_");
                push_padded_decimal(&mut nm, b, 4);
                (INODE_BLOCK_DIR_BASE + b, EntryType::Directory, nm)
            }
        },
        InodeKind::BlockDir(block_idx) => {
            if j == 0 {
                (ino, EntryType::Directory, chars_of("."))
            } else if j == 1 {
                (INODE_BLOCKS_DIR, EntryType::Directory, chars_of(".."))
            } else {
                let p = (j - 2) as u32;
                let mut nm = chars_of("page_");
                push_padded_decimal(&mut nm, p as u64, 2);
                push_str(&mut nm, ".bin");
                proof {
                    assert(block_idx * 0x10000 < m.total_blocks * 0x10000) by (nonlinear_arith)
                        requires
                            block_idx < m.total_blocks,
                    ;
                    assert(shifted_block(block_idx) == block_idx * 0x10000);
                }
                (inode_for_block_page(block_idx, p), EntryType::RegularFile, nm)
            }
        },
        _ => {
            if j == 0 {
                (INODE_PAGES_DIR, EntryType::Directory, chars_of("."))
            } else if j == 1 {
                (INODE_ROOT, EntryType::Directory, chars_of(".."))
            } else {
                let p = j - 2;
                let mut nm = chars_of("page_");
                push_padded_decimal(&mut nm, p, 6);
                push_str(&mut nm, ".bin");
                (INODE_FLAT_PAGE_BASE + p, EntryType::RegularFile, nm)
            }
        },
    };
    Some(DirEntry { ino: e_ino, offset, kind: e_kind, name: string_from_chars(name.as_slice()) })
}

fn decimal_string(n: u64) -> (s: String)
    ensures
        s@ == dec_digits(n as nat),
{
    let mut v: Vec<char> = Vec::new();
    push_decimal(&mut v, n);
    assert(v@ =~= dec_digits(n as nat));
    string_from_chars(v.as_slice())
}

/// The answer to reading extended attribute `name` of node `ino` into a
/// buffer of `size` bytes (`getxattr`; size 0 asks for the value's size).
pub fn getxattr(m: &FileMetadata, ino: u64, name: &str, size: u32) -> (r: XattrReply)
    requires
        parse_inode_ok(ino, m.block_size),
    ensures
        match spec_xattr_value(*m, kind_of(*m, ino), name@) {
            None => r == XattrReply::NoData,
            Some(v) => if size == 0 {
                r == XattrReply::Size(v.len() as u32)
            } else if size >= v.len() {
                r matches XattrReply::Data(s) && s@ == v
            } else {
                r == XattrReply::RangeError
            },
        },
{
    let kind = parse_inode(ino, m.block_size, m.total_pages, m.total_blocks);
    match kind {
        InodeKind::Root | InodeKind::DumpBin => {},
        _ => return XattrReply::NoData,
    }
    let n = chars_of(name);
    let value = if chars_equal(n.as_slice(), "user.nand.page_size") {
        decimal_string(m.page_length as u64)
    } else if chars_equal(n.as_slice(), "user.nand.block_size") {
        decimal_string(m.block_size as u64)
    } else if chars_equal(n.as_slice(), "user.nand.total_pages") {
        decimal_string(m.total_pages)
    } else if chars_equal(n.as_slice(), "user.nand.total_size") {
        decimal_string(m.size)
    } else {
        return XattrReply::NoData;
    };
    proof {
        crate::text::lemma_dec_digits_len(if n@ == "user.nand.page_size"@ {
            m.page_length as nat
        } else if n@ == "user.nand.block_size"@ {
            m.block_size as nat
        } else if n@ == "user.nand.total_pages"@ {
            m.total_pages as nat
        } else {
            m.size as nat
        });
    }
    sized_answer(value, size)
}

/// The answer to listing the extended attribute names of node `ino` into a
/// buffer of `size` bytes (`listxattr`): nodes other than the root and
/// `dump.bin` have none.
pub fn listxattr(m: &FileMetadata, ino: u64, size: u32) -> (r: XattrReply)
    requires
        parse_inode_ok(ino, m.block_size),
    ensures
        !(kind_of(*m, ino) is Root || kind_of(*m, ino) is DumpBin) ==> r == XattrReply::Size(0),
        (kind_of(*m, ino) is Root || kind_of(*m, ino) is DumpBin) ==> if size == 0 {
            r == XattrReply::Size(xattr_names().len() as u32)
        } else if size >= xattr_names().len() {
            r matches XattrReply::Data(s) && s@ == xattr_names()
        } else {
            r == XattrReply::RangeError
        },
{
    let kind = parse_inode(ino, m.block_size, m.total_pages, m.total_blocks);
    match kind {
        InodeKind::Root | InodeKind::DumpBin => {},
        _ => return XattrReply::Size(0),
    }
    let names = string_from_chars(
        chars_of("user.nand.page_size\0user.nand.block_size\0user.nand.total_pages\0user.nand.total_size\0")
            .as_slice(),
    );
    proof {
        reveal_strlit("user.nand.page_size\0user.nand.block_size\0user.nand.total_pages\0user.nand.total_size\0");
    }
    sized_answer(names, size)
}

/// Reading a flat page file (`pages/page_NNNNNN.bin`) at an offset inside the
/// page asks the dump for the bytes from the page's start (its index times
/// the page length) plus that offset: as many as were asked for, but none
/// past the page's end. At or past the page's end nothing is read.
pub proof fn lemma_flat_page_read(m: FileMetadata, meta_json_len: u64, page_idx: u64, offset: i64, size: u32)
    requires
        fs_geometry_ok(m, meta_json_len),
        page_idx < m.total_pages,
        offset >= 0,
    ensures
        offset < m.page_length ==> spec_read(m, meta_json_len, (INODE_FLAT_PAGE_BASE + page_idx) as u64, offset, size)
            == (ReadReply::Provider {
            offset: (page_idx * m.page_length + offset) as u64,
            len: (if m.page_length - offset <= size { m.page_length - offset } else { size as int }) as u32,
        }),
        offset >= m.page_length ==> spec_read(m, meta_json_len, (INODE_FLAT_PAGE_BASE + page_idx) as u64, offset, size)
            == ReadReply::Empty,
{
    crate::fuse_node::lemma_flat_page_inode_round_trip(page_idx, m.block_size, m.total_pages, m.total_blocks);
}

/// Reading page `page_in_block` of block `block_idx`
/// (`blocks/block_NNNN/page_NN.bin`) at an offset inside the page asks the
/// dump for the bytes from the start of page `block_idx * block_size +
/// page_in_block` plus that offset, as many as were asked for but none past
/// the page's end; at or past the page's end nothing is read.
pub proof fn lemma_block_page_read(
    m: FileMetadata,
    meta_json_len: u64,
    block_idx: u64,
    page_in_block: u32,
    offset: i64,
    size: u32,
)
    requires
        fs_geometry_ok(m, meta_json_len),
        block_idx < m.total_blocks,
        page_in_block < m.block_size,
        page_in_block < 0x10000,
        block_idx * m.block_size + page_in_block < m.total_pages,
        INODE_BLOCK_PAGE_BASE + block_idx * 0x10000 + page_in_block < INODE_FLAT_PAGE_BASE,
        offset >= 0,
    ensures
        offset < m.page_length ==> spec_read(
            m,
            meta_json_len,
            (INODE_BLOCK_PAGE_BASE + block_idx * 0x10000 + page_in_block) as u64,
            offset,
            size,
        ) == (ReadReply::Provider {
            offset: ((block_idx * m.block_size + page_in_block) * m.page_length + offset) as u64,
            len: (if m.page_length - offset <= size { m.page_length - offset } else { size as int }) as u32,
        }),
        offset >= m.page_length ==> spec_read(
            m,
            meta_json_len,
            (INODE_BLOCK_PAGE_BASE + block_idx * 0x10000 + page_in_block) as u64,
            offset,
            size,
        ) == ReadReply::Empty,
{
    crate::fuse_node::lemma_block_page_inode_round_trip(
        block_idx,
        page_in_block,
        m.block_size,
        m.total_pages,
        m.total_blocks,
    );
}

/// A flat page file holds the dump's bytes of that page: for a page that
/// lies wholly inside the dump, reading the page file at an offset inside the
/// page gives the same answer as reading `dump.bin` at the page's start plus
/// that offset, for as many bytes as the page file gives.
pub proof fn lemma_page_file_matches_dump(m: FileMetadata, meta_json_len: u64, page_idx: u64, offset: i64, size: u32)
    requires
        fs_geometry_ok(m, meta_json_len),
        page_idx < m.total_pages,
        0 <= offset < m.page_length,
        (page_idx + 1) * m.page_length <= m.size,
        page_idx * m.page_length + offset <= i64::MAX,
    ensures
        spec_read(m, meta_json_len, (INODE_FLAT_PAGE_BASE + page_idx) as u64, offset, size) == spec_read(
            m,
            meta_json_len,
            INODE_DUMP_BIN,
            (page_idx * m.page_length + offset) as i64,
            (if m.page_length - offset <= size { m.page_length - offset } else { size as int }) as u32,
        ),
{
    lemma_flat_page_read(m, meta_json_len, page_idx, offset, size);
    let pl = m.page_length as int;
    assert(page_idx * pl + pl == (page_idx + 1) * pl) by (nonlinear_arith);
}

/// Every name a directory lists (other than `.` and `..`) is found again by
/// lookup in that directory, at the inode the listing gave it. Pages of a
/// block beyond the end of the dump are listed but not found, so they are
/// left out.
pub proof fn lemma_listed_names_resolve(m: FileMetadata, meta_json_len: u64, dir: u64, j: int)
    requires
        fs_geometry_ok(m, meta_json_len),
        spec_dir_len(m, kind_of(m, dir)) matches Some(len) && 2 <= j < len,
        kind_of(m, dir) matches InodeKind::BlockDir(b) ==> b * m.block_size + (j - 2) < m.total_pages,
    ensures
        spec_lookup(m, meta_json_len, dir, spec_dir_entry(m, dir, kind_of(m, dir), j).2) matches Some(a)
            && a.ino == spec_dir_entry(m, dir, kind_of(m, dir), j).0,
{
    let kind = kind_of(m, dir);
    let name = spec_dir_entry(m, dir, kind, j).2;
    match kind {
        InodeKind::Root => {
            reveal_strlit("dump.bin");
            reveal_strlit("meta.json");
            reveal_strlit("blocks");
            reveal_strlit("pages");
        },
        InodeKind::BlocksDir => {
            let k = (j - 2) as nat;
            let pre = "block_"@;
            let digits = padded_dec(k, 4);
            assert(name == pre + digits);
            assert((pre + digits).subrange(0, pre.len() as int) =~= pre);
            assert((pre + digits).subrange(pre.len() as int, (pre + digits).len() - 0) =~= digits);
            assert((pre + digits).subrange((pre + digits).len() - 0, (pre + digits).len() as int) =~= seq![]);
            lemma_padded_dec_parses(k, 4, u64::MAX as int);
        },
        InodeKind::BlockDir(b) => {
            let k = (j - 2) as nat;
            let pre = "page_"@;
            let suf = ".bin"@;
            let digits = padded_dec(k, 2);
            let full = pre + digits + suf;
            assert(name == full);
            assert(full.subrange(0, pre.len() as int) =~= pre);
            assert(full.subrange(full.len() - suf.len(), full.len() as int) =~= suf);
            assert(full.subrange(pre.len() as int, full.len() - suf.len()) =~= digits);
            lemma_padded_dec_parses(k, 2, u32::MAX as int);
            assert(b * 0x10000 < m.total_blocks * 0x10000) by (nonlinear_arith)
                requires
                    b < m.total_blocks,
            ;
        },
        InodeKind::PagesDir => {
            let k = (j - 2) as nat;
            let pre = "page_"@;
            let suf = ".bin"@;
            let digits = padded_dec(k, 6);
            let full = pre + digits + suf;
            assert(name == full);
            assert(full.subrange(0, pre.len() as int) =~= pre);
            assert(full.subrange(full.len() - suf.len(), full.len() as int) =~= suf);
            assert(full.subrange(pre.len() as int, full.len() - suf.len()) =~= digits);
            lemma_padded_dec_parses(k, 6, u64::MAX as int);
        },
        _ => {},
    }
}

} // verus!
