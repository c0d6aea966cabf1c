//! Parameters asked of the user when a dump is opened without usable cached
//! metadata: the accepted page lengths and block sizes, and how one line of
//! input is answered.
//!
//! Prompting, reading the answer and looking at the file system are done by
//! the caller, which hands each line of input to the functions here.

use vstd::prelude::*;
use crate::text::{chars_of, string_from_chars, spec_trim, trim_chars, parse_unsigned, parse_unsigned_chars};

verus! {

/// Smallest page length, in bytes, that the dialog accepts.
pub const MIN_PAGE_LENGTH: u32 = 500;

/// Largest page length, in bytes, that the dialog accepts.
pub const MAX_PAGE_LENGTH: u32 = 20000;

/// Page length used when the user enters nothing.
pub const DEFAULT_PAGE_LENGTH: u32 = 2048;

/// Block size used when the user enters nothing.
pub const DEFAULT_BLOCK_SIZE: u32 = 64;

/// The block sizes (pages per block) the dialog accepts, in order.
pub open spec fn spec_valid_block_sizes() -> Seq<u32> {
    seq![64u32, 128u32, 256u32, 512u32, 768u32, 1024u32]
}

/// The block sizes (pages per block) the dialog accepts, in order.
pub fn valid_block_sizes() -> (v: Vec<u32>)
    ensures
        v@ == spec_valid_block_sizes(),
{
    let v: Vec<u32> = vec![64, 128, 256, 512, 768, 1024];
    assert(v@ =~= spec_valid_block_sizes());
    v
}

/// Answer to one line typed at a parameter prompt.
#[derive(Debug, Clone, PartialEq, Eq)]
pub enum PromptReply {
    /// The value to use
    Accepted(u32),
    /// The line is refused; the message is shown and the prompt repeated
    Rejected(String),
}

/// Dialog that asks for the parameters of a dump; it remembers the cache
/// directory in which metadata is looked up and saved.
pub struct FileDialog {
    pub cache_dir: String,
}

impl FileDialog {
    /// A dialog using `cache_dir` for metadata.
    pub fn new(cache_dir: String) -> (d: FileDialog)
        ensures
            d.cache_dir@ == cache_dir@,
    {
        FileDialog { cache_dir }
    }

    /// Whether `page_length` is within the accepted range.
    pub fn validate_page_length(&self, page_length: u32) -> (b: bool)
        ensures
            b <==> MIN_PAGE_LENGTH <= page_length <= MAX_PAGE_LENGTH,
    {
        page_length >= MIN_PAGE_LENGTH && page_length <= MAX_PAGE_LENGTH
    }

    /// Whether `block_size` is one of the accepted block sizes.
    pub fn validate_block_size(&self, block_size: u32) -> (b: bool)
        ensures
            b <==> spec_valid_block_sizes().contains(block_size),
    {
        let sizes = valid_block_sizes();
        let mut i: usize = 0;
        while i < sizes.len()
            invariant
                i <= sizes@.len(),
                sizes@ == spec_valid_block_sizes(),
                forall|j: int| 0 <= j < i ==> sizes@[j] != block_size,
            decreases sizes@.len() - i,
        {
            if sizes[i] == block_size {
                return true;
            }
            i = i + 1;
        }
        false
    }

    /// Answers a line typed at the page-length prompt: an empty line takes
    /// the default, a number in range is accepted, anything else is refused
    /// with the message to show.
    pub fn page_length_reply(&self, input: &str) -> (r: PromptReply)
        ensures
            spec_trim(input@).len() == 0 ==> r == PromptReply::Accepted(DEFAULT_PAGE_LENGTH),
            spec_trim(input@).len() > 0 ==> match parse_unsigned(spec_trim(input@), u32::MAX as int) {
                Some(v) => if MIN_PAGE_LENGTH <= v <= MAX_PAGE_LENGTH {
                    r == PromptReply::Accepted(v as u32)
                } else {
                    r matches PromptReply::Rejected(m) && m@ == "Error: Page length must be between 500 and 20000 bytes"@
                },
                None => r matches PromptReply::Rejected(m) && m@ == "Error: Invalid input. Please enter a number."@,
            },
    {
        let chars = chars_of(input);
        let t = trim_chars(chars.as_slice());
        if t.len() == 0 {
            return PromptReply::Accepted(DEFAULT_PAGE_LENGTH);
        }
        match parse_unsigned_chars(t.as_slice(), 0xffff_ffffu64) {
            Some(v) => {
                let v = v as u32;
                if self.validate_page_length(v) {
                    PromptReply::Accepted(v)
                } else {
                    PromptReply::Rejected(
                        string_from_chars(chars_of("Error: Page length must be between 500 and 20000 bytes").as_slice()),
                    )
                }
            },
            None => PromptReply::Rejected(
                string_from_chars(chars_of("Error: Invalid input. Please enter a number.").as_slice()),
            ),
        }
    }

    /// Answers a line typed at the block-size prompt: an empty line takes
    /// the default, an accepted block size is taken, anything else is
    /// refused with the message to show.
    pub fn block_size_reply(&self, input: &str) -> (r: PromptReply)
        ensures
            spec_trim(input@).len() == 0 ==> r == PromptReply::Accepted(DEFAULT_BLOCK_SIZE),
            spec_trim(input@).len() > 0 ==> match parse_unsigned(spec_trim(input@), u32::MAX as int) {
                Some(v) => if spec_valid_block_sizes().contains(v as u32) {
                    r == PromptReply::Accepted(v as u32)
                } else {
                    r matches PromptReply::Rejected(m) && m@
                        == "Error: Block size must be one of: 64, 128, 256, 512, 768, 1024 pages"@
                },
                None => r matches PromptReply::Rejected(m) && m@ == "Error: Invalid input. Please enter a number."@,
            },
    {
        let chars = chars_of(input);
        let t = trim_chars(chars.as_slice());
        if t.len() == 0 {
            return PromptReply::Accepted(DEFAULT_BLOCK_SIZE);
        }
        match parse_unsigned_chars(t.as_slice(), 0xffff_ffffu64) {
            Some(v) => {
                let v = v as u32;
                if self.validate_block_size(v) {
                    PromptReply::Accepted(v)
                } else {
                    PromptReply::Rejected(
                        string_from_chars(
                            chars_of("Error: Block size must be one of: 64, 128, 256, 512, 768, 1024 pages").as_slice(),
                        ),
                    )
                }
            },
            None => PromptReply::Rejected(
                string_from_chars(chars_of("Error: Invalid input. Please enter a number.").as_slice()),
            ),
        }
    }
}

} // verus!
