//! Link to the external xorviewer web tool for a location in the dump.

use vstd::prelude::*;
use crate::fuse_node::{path_join, push_path_component};
use crate::text::{chars_of, push_chars, push_decimal, push_str, string_from_chars, dec_digits};
use crate::types::FileMetadata;

verus! {

/// The dump's path made absolute: kept when it starts at the root, otherwise
/// joined onto the working directory `cwd`.
pub open spec fn absolute_dump_path(path: Seq<char>, cwd: Seq<char>) -> Seq<char> {
    if path.len() > 0 && path[0] == '/' {
        path
    } else {
        path_join(cwd, path)
    }
}

/// The xorviewer URL for byte `offset_in_page` of page `page` of block
/// `block`, or None when the dump has no path.
pub open spec fn xorviewer_url(m: FileMetadata, block: u64, page: u64, offset_in_page: u64, cwd: Seq<char>) -> Option<
    Seq<char>,
> {
    if m.path@.len() == 0 {
        None
    } else {
        Some(
            "http://localhost/cgi-bin/drresearch/xorviewer.pl?dump="@ + absolute_dump_path(m.path@, cwd)
                + "&pagesize="@ + dec_digits(m.page_length as nat) + "&pagesperblock="@ + dec_digits(
                m.block_size as nat,
            ) + "&pagestart="@ + dec_digits((block * m.block_size + page) as nat) + "&start="@ + dec_digits(
                offset_in_page as nat,
            ),
        )
    }
}

/// Build the xorviewer URL for a specific location. `current_dir` is the
/// working directory against which a relative dump path is resolved.
pub fn build_xorviewer_url(
    metadata: &FileMetadata,
    block: u64,
    page: u64,
    offset_in_page: u64,
    current_dir: &str,
) -> (r: Option<String>)
    requires
        block * metadata.block_size + page <= u64::MAX,
    ensures
        r matches Some(u) ==> xorviewer_url(*metadata, block, page, offset_in_page, current_dir@) == Some(u@),
        r is None <==> xorviewer_url(*metadata, block, page, offset_in_page, current_dir@) is None,
{
    let path = chars_of(metadata.path.as_str());
    if path.len() == 0 {
        return None;
    }
    let abs: Vec<char> = if path[0] == '/' {
        path
    } else {
        let mut base = chars_of(current_dir);
        push_path_component(&mut base, path.as_slice());
        base
    };
    let bs = metadata.block_size as u64;
    proof {
        assert(block * bs >= 0) by (nonlinear_arith);
    }
    let page_start = block * bs + page;
    let mut url = chars_of("http://localhost/cgi-bin/drresearch/xorviewer.pl?dump=");
    push_chars(&mut url, abs.as_slice());
    push_str(&mut url, "&pagesize=");
    push_decimal(&mut url, metadata.page_length as u64);
    push_str(&mut url, "&pagesperblock=");
    push_decimal(&mut url, bs);
    push_str(&mut url, "&pagestart=");
    push_decimal(&mut url, page_start);
    push_str(&mut url, "&start=");
    push_decimal(&mut url, offset_in_page);
    Some(string_from_chars(url.as_slice()))
}

} // verus!
