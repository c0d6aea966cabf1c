//! Inode arithmetic of the virtual dump filesystem.
//!
//! The filesystem exposes `dump.bin`, `meta.json`, a `blocks/` tree of
//! `block_NNNN/page_NN.bin` files and a flat `pages/` directory. Inode numbers
//! are computed, not stored: each kind of node owns a disjoint numeric range.

use vstd::prelude::*;
use vstd::bits::lemma_u64_shr_is_div;
use vstd::arithmetic::power2::{pow2, lemma2_to64};
use crate::text::{dec_digits, push_decimal, chars_of, string_from_chars};

verus! {

pub const INODE_ROOT: u64 = 1;
pub const INODE_DUMP_BIN: u64 = 2;
pub const INODE_META_JSON: u64 = 3;
pub const INODE_BLOCKS_DIR: u64 = 4;
pub const INODE_PAGES_DIR: u64 = 5;

pub const INODE_BLOCK_DIR_BASE: u64 = 0x0010_0000;
pub const INODE_BLOCK_PAGE_BASE: u64 = 0x1000_0000;
pub const INODE_FLAT_PAGE_BASE: u64 = 0x0100_0000_0000_0000;

/// Categorized identity of an inode in the virtual filesystem
#[derive(Debug, PartialEq, Eq, Clone, Copy)]
pub enum InodeKind {
    Root,
    DumpBin,
    MetaJson,
    BlocksDir,
    PagesDir,
    BlockDir(u64),
    BlockPage {
        block_idx: u64,
        page_in_block: u32,
        page_idx: u64,
    },
    FlatPage(u64),
    Unknown,
}

/// Inode of the directory of block `block_idx`.
pub fn inode_for_block_dir(block_idx: u64) -> (ino: u64)
    requires
        INODE_BLOCK_DIR_BASE + block_idx <= u64::MAX,
    ensures
        ino == INODE_BLOCK_DIR_BASE + block_idx,
{
    INODE_BLOCK_DIR_BASE + block_idx
}

/// The block index shifted into bits 16 and up (bits shifted past bit 63 are lost).
pub open spec fn shifted_block(block_idx: u64) -> int {
    (block_idx as int * 0x10000) % 0x1_0000_0000_0000_0000
}

/// Inode of page `page_in_block` of block `block_idx`.
pub fn inode_for_block_page(block_idx: u64, page_in_block: u32) -> (ino: u64)
    requires
        INODE_BLOCK_PAGE_BASE + shifted_block(block_idx) + page_in_block <= u64::MAX,
    ensures
        ino == INODE_BLOCK_PAGE_BASE + shifted_block(block_idx) + page_in_block,
{
    assert(block_idx << 16u64 == (block_idx as int * 0x10000) % 0x1_0000_0000_0000_0000) by (bit_vector);
    INODE_BLOCK_PAGE_BASE + (block_idx << 16) + (page_in_block as u64)
}

/// Inode of flat page `page_idx`.
pub fn inode_for_flat_page(page_idx: u64) -> (ino: u64)
    requires
        INODE_FLAT_PAGE_BASE + page_idx <= u64::MAX,
    ensures
        ino == INODE_FLAT_PAGE_BASE + page_idx,
{
    INODE_FLAT_PAGE_BASE + page_idx
}

/// Classification of an inode number against the dump geometry.
pub open spec fn spec_parse_inode(ino: u64, block_size: u32, total_pages: u64, total_blocks: u64) -> InodeKind {
    if ino == INODE_ROOT {
        InodeKind::Root
    } else if ino == INODE_DUMP_BIN {
        InodeKind::DumpBin
    } else if ino == INODE_META_JSON {
        InodeKind::MetaJson
    } else if ino == INODE_BLOCKS_DIR {
        InodeKind::BlocksDir
    } else if ino == INODE_PAGES_DIR {
        InodeKind::PagesDir
    } else if ino >= INODE_FLAT_PAGE_BASE {
        let page_idx = ino - INODE_FLAT_PAGE_BASE;
        if page_idx < total_pages { InodeKind::FlatPage(page_idx as u64) } else { InodeKind::Unknown }
    } else if ino >= INODE_BLOCK_PAGE_BASE {
        let offset = ino - INODE_BLOCK_PAGE_BASE;
        let block_idx = offset / 0x10000;
        let page_in_block = offset % 0x10000;
        let page_idx = block_idx * block_size + page_in_block;
        if block_idx < total_blocks && page_in_block < block_size && page_idx < total_pages {
            InodeKind::BlockPage {
                block_idx: block_idx as u64,
                page_in_block: page_in_block as u32,
                page_idx: page_idx as u64,
            }
        } else {
            InodeKind::Unknown
        }
    } else if ino >= INODE_BLOCK_DIR_BASE {
        let block_idx = ino - INODE_BLOCK_DIR_BASE;
        if block_idx < total_blocks { InodeKind::BlockDir(block_idx as u64) } else { InodeKind::Unknown }
    } else {
        InodeKind::Unknown
    }
}

/// `parse_inode` computes the page index of a block-page inode in 64 bits;
/// this holds when that product does not overflow.
pub open spec fn parse_inode_ok(ino: u64, block_size: u32) -> bool {
    INODE_BLOCK_PAGE_BASE <= ino < INODE_FLAT_PAGE_BASE ==> {
        let offset = ino - INODE_BLOCK_PAGE_BASE;
        (offset / 0x10000) * block_size + offset % 0x10000 <= u64::MAX
    }
}

/// Classifies an inode number against the dump geometry.
pub fn parse_inode(ino: u64, block_size: u32, total_pages: u64, total_blocks: u64) -> (kind: InodeKind)
    requires
        parse_inode_ok(ino, block_size),
    ensures
        kind == spec_parse_inode(ino, block_size, total_pages, total_blocks),
{
    if ino == INODE_ROOT {
        InodeKind::Root
    } else if ino == INODE_DUMP_BIN {
        InodeKind::DumpBin
    } else if ino == INODE_META_JSON {
        InodeKind::MetaJson
    } else if ino == INODE_BLOCKS_DIR {
        InodeKind::BlocksDir
    } else if ino == INODE_PAGES_DIR {
        InodeKind::PagesDir
    } else if ino >= INODE_FLAT_PAGE_BASE {
        let page_idx = ino - INODE_FLAT_PAGE_BASE;
        if page_idx < total_pages {
            InodeKind::FlatPage(page_idx)
        } else {
            InodeKind::Unknown
        }
    } else if ino >= INODE_BLOCK_PAGE_BASE {
        let offset = ino - INODE_BLOCK_PAGE_BASE;
        proof {
            lemma2_to64();
            lemma_u64_shr_is_div(offset, 16);
        }
        let block_idx = offset >> 16;
        assert(offset & 0xFFFF == offset % 0x10000) by (bit_vector);
        let page_in_block = (offset & 0xFFFF) as u32;
        assert(block_idx * (block_size as u64) <= u64::MAX) by (nonlinear_arith)
            requires
                block_idx * block_size + offset % 0x10000 <= u64::MAX,
                offset % 0x10000 >= 0,
        ;
        let page_idx = block_idx * (block_size as u64) + (page_in_block as u64);
        if block_idx < total_blocks && page_in_block < block_size && page_idx < total_pages {
            InodeKind::BlockPage { block_idx, page_in_block, page_idx }
        } else {
            InodeKind::Unknown
        }
    } else if ino >= INODE_BLOCK_DIR_BASE {
        let block_idx = ino - INODE_BLOCK_DIR_BASE;
        if block_idx < total_blocks {
            InodeKind::BlockDir(block_idx)
        } else {
            InodeKind::Unknown
        }
    } else {
        InodeKind::Unknown
    }
}

/// A block directory's inode is classified back as that block's directory,
/// for every block of the dump whose inode stays below the page-inode range.
pub proof fn lemma_block_dir_inode_round_trip(block_idx: u64, block_size: u32, total_pages: u64, total_blocks: u64)
    requires
        block_idx < total_blocks,
        INODE_BLOCK_DIR_BASE + block_idx < INODE_BLOCK_PAGE_BASE,
    ensures
        parse_inode_ok((INODE_BLOCK_DIR_BASE + block_idx) as u64, block_size),
        spec_parse_inode((INODE_BLOCK_DIR_BASE + block_idx) as u64, block_size, total_pages, total_blocks)
            == InodeKind::BlockDir(block_idx),
{
}

/// A block page's inode is classified back as that page, with its flat page
/// index `block_idx * block_size + page_in_block`, whenever the page exists in
/// the dump, the page number fits the 16-bit field and the inode stays below
/// the flat-page range.
pub proof fn lemma_block_page_inode_round_trip(
    block_idx: u64,
    page_in_block: u32,
    block_size: u32,
    total_pages: u64,
    total_blocks: u64,
)
    requires
        block_idx < total_blocks,
        page_in_block < block_size,
        page_in_block < 0x10000,
        block_idx as int * block_size + page_in_block < total_pages,
        INODE_BLOCK_PAGE_BASE + block_idx as int * 0x10000 + page_in_block < INODE_FLAT_PAGE_BASE,
    ensures
        shifted_block(block_idx) == block_idx as int * 0x10000,
        parse_inode_ok((INODE_BLOCK_PAGE_BASE + shifted_block(block_idx) + page_in_block) as u64, block_size),
        spec_parse_inode((INODE_BLOCK_PAGE_BASE + shifted_block(block_idx) + page_in_block) as u64,
            block_size, total_pages, total_blocks)
            == (InodeKind::BlockPage {
                block_idx,
                page_in_block,
                page_idx: (block_idx * block_size + page_in_block) as u64,
            }),
{
    let off = block_idx as int * 0x10000 + page_in_block;
    assert(off / 0x10000 == block_idx as int && off % 0x10000 == page_in_block as int) by (nonlinear_arith)
        requires
            off == block_idx as int * 0x10000 + page_in_block,
            0 <= page_in_block < 0x10000,
            block_idx >= 0,
    ;
}

/// A flat page's inode is classified back as that page for every page of the dump.
pub proof fn lemma_flat_page_inode_round_trip(page_idx: u64, block_size: u32, total_pages: u64, total_blocks: u64)
    requires
        page_idx < total_pages,
        INODE_FLAT_PAGE_BASE + page_idx <= u64::MAX,
    ensures
        parse_inode_ok((INODE_FLAT_PAGE_BASE + page_idx) as u64, block_size),
        spec_parse_inode((INODE_FLAT_PAGE_BASE + page_idx) as u64, block_size, total_pages, total_blocks)
            == InodeKind::FlatPage(page_idx),
{
}

/// Joins a relative component onto a path the way `PathBuf::push` does on
/// Unix: no separator after an empty path or one that already ends in `/`.
pub open spec fn path_join(base: Seq<char>, comp: Seq<char>) -> Seq<char> {
    if base.len() == 0 || base.last() == '/' { base + comp } else { base + seq!['/'] + comp }
}

pub fn push_path_component(path: &mut Vec<char>, comp: &[char])
    ensures
        final(path)@ == path_join(old(path)@, comp@),
{
    if path.len() > 0 && path[path.len() - 1] != '/' {
        path.push('/');
    }
    crate::text::push_chars(path, comp);
}

/// Default mount directory of node `node_id`: `$HOME/.cache/zoomviewer/mount/node_N`
/// when a home directory is known, `.cache/zoomviewer/mount/node_N` otherwise.
pub open spec fn spec_default_mount_dir(node_id: usize, home: Option<Seq<char>>) -> Seq<char> {
    let leaf = seq!['n', 'o', 'd', 'e', '_'] + dec_digits(node_id as nat);
    match home {
        Some(h) => path_join(path_join(path_join(path_join(h, ".cache"@), "zoomviewer"@), "mount"@), leaf),
        None => ".cache/zoomviewer/mount/"@ + leaf,
    }
}

/// Helper to generate a default mount directory for a node, given the
/// user's home directory if there is one.
pub fn default_mount_dir_for_node(node_id: usize, home: Option<String>) -> (dir: String)
    ensures
        dir@ == spec_default_mount_dir(node_id, match home { Some(h) => Some(h@), None => None }),
{
    let mut leaf: Vec<char> = Vec::new();
    leaf.push('n');
    leaf.push('o');
    leaf.push('d');
    leaf.push('e');
    leaf.push('_');
    push_decimal(&mut leaf, node_id as u64);
    assert(leaf@ =~= seq!['n', 'o', 'd', 'e', '_'] + dec_digits(node_id as nat));
    match home {
        Some(h) => {
            let mut path = chars_of(h.as_str());
            push_path_component(&mut path, chars_of(".cache").as_slice());
            push_path_component(&mut path, chars_of("zoomviewer").as_slice());
            push_path_component(&mut path, chars_of("mount").as_slice());
            push_path_component(&mut path, leaf.as_slice());
            string_from_chars(&path)
        },
        None => {
            let mut path = chars_of(".cache/zoomviewer/mount/");
            crate::text::push_chars(&mut path, leaf.as_slice());
            string_from_chars(&path)
        },
    }
}

} // verus!
