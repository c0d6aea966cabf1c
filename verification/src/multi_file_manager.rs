//! Several dump files open at the same time, each under its own identifier,
//! with its own metadata, tile cache, file reader and view.

use vstd::prelude::*;
use std::collections::HashMap;
use vstd::std_specs::iter::IteratorSpec;
use crate::cache_manager::CacheManager;
use crate::error::Error;
use crate::text::{chars_of, push_decimal, push_str, string_from_chars, dec_digits};
use crate::types::FileMetadata;

verus! {

broadcast use vstd::std_specs::hash::group_hash_axioms;

/// Unique identifier for a dump file session.
#[derive(Debug, Clone, Copy, PartialEq, Eq, Hash)]
pub struct DumpId(pub u64);

impl DumpId {
    /// The identifier with number `id`.
    pub fn new(id: u64) -> (d: DumpId)
        ensures
            d.0 == id,
    {
        DumpId(id)
    }
}

/// Per-file state of one open dump: `L` is its reader, `V` its view.
pub struct DumpFileState<L, V> {
    /// Unique identifier for this dump
    pub id: DumpId,
    /// File metadata
    pub metadata: FileMetadata,
    /// Tile cache of this dump
    pub cache: CacheManager,
    /// Reader of this dump
    pub file_loader: L,
    /// View of this dump
    pub viewport: V,
}

/// The last component of a path (`Path::file_name`), if it is valid UTF-8.
pub uninterp spec fn path_file_name(path: Seq<char>) -> Option<Seq<char>>;

/// The last component of `path`, as `std::path::Path::file_name` gives it,
/// when it is valid UTF-8. The name it returns is left to
/// `path_file_name`.
#[verifier::external_body]
fn file_name_of(path: &str) -> (r: Option<String>)
    ensures
        match r {
            Some(s) => path_file_name(path@) == Some(s@),
            None => path_file_name(path@) is None,
        },
{
    std::path::Path::new(path).file_name().and_then(|n| n.to_str()).map(|n| n.to_string())
}

/// The name a dump's cache directory is given: the file name of its path,
/// or `dump`.
pub open spec fn cache_name(path: Seq<char>) -> Seq<char> {
    match path_file_name(path) {
        Some(n) => n,
        None => "dump"@,
    }
}

/// `Dump DumpId({n}) not found`.
pub open spec fn not_found_text(id: u64) -> Seq<char> {
    "Dump DumpId("@ + dec_digits(id as nat) + ") not found"@
}

fn not_found(id: DumpId) -> (e: Error)
    ensures
        e matches Error::NotFound(m) && m@ == not_found_text(id.0),
{
    let mut out: Vec<char> = Vec::new();
    push_str(&mut out, "Dump DumpId(");
    push_decimal(&mut out, id.0);
    push_str(&mut out, ") not found");
    Error::NotFound(string_from_chars(out.as_slice()))
}

/// Multi-file manager coordinating several dump files.
pub struct MultiFileManager<L, V> {
    /// The open dumps by identifier number
    dumps: HashMap<u64, DumpFileState<L, V>>,
    /// Next identifier number to assign
    next_id: u64,
    /// Base cache directory
    cache_dir: String,
}

impl<L, V> MultiFileManager<L, V> {
    /// The open dumps by identifier number.
    pub closed spec fn open_dumps(&self) -> Map<u64, DumpFileState<L, V>> {
        self.dumps@
    }

    /// The number the next opened dump gets.
    pub closed spec fn next_number(&self) -> u64 {
        self.next_id
    }

    /// The base cache directory.
    pub closed spec fn base_cache_dir(&self) -> Seq<char> {
        self.cache_dir@
    }

    /// Every open dump is filed under its own number, below the next one to
    /// be assigned; numbers start at 1.
    pub closed spec fn wf(&self) -> bool {
        &&& self.next_id >= 1
        &&& forall|k: u64| #[trigger] self.dumps@.contains_key(k) ==> self.dumps@[k].id.0 == k && k < self.next_id
    }

    /// Every open dump is filed under its own identifier, and every open
    /// identifier is below the next one to be handed out, so an identifier
    /// is never given to two dumps, even after the first is closed.
    pub proof fn lemma_ids_unique(&self)
        requires
            self.wf(),
        ensures
            forall|k: u64| #[trigger] self.open_dumps().contains_key(k) ==> self.open_dumps()[k].id.0 == k && k
                < self.next_number(),
            !self.open_dumps().contains_key(self.next_number()),
    {
    }

    /// Create a new multi-file manager
    ///
    /// # Arguments
    /// * `cache_dir` - Base cache directory for all dumps
    pub fn new(cache_dir: String) -> (m: Self)
        ensures
            m.wf(),
            m.open_dumps() == Map::<u64, DumpFileState<L, V>>::empty(),
            m.next_number() == 1,
            m.base_cache_dir() == cache_dir@,
    {
        MultiFileManager { dumps: HashMap::new(), next_id: 1, cache_dir }
    }

    /// Registers a dump whose reader is open, under a fresh identifier; its
    /// tile cache lies in the base cache directory under the dump's file
    /// name, and it starts with the given view.
    pub fn open_dump(&mut self, metadata: FileMetadata, file_loader: L, viewport: V) -> (id: DumpId)
        requires
            old(self).wf(),
            old(self).next_number() < u64::MAX,
        ensures
            final(self).wf(),
            id.0 == old(self).next_number(),
            !old(self).open_dumps().contains_key(id.0),
            final(self).next_number() == old(self).next_number() + 1,
            final(self).base_cache_dir() == old(self).base_cache_dir(),
            final(self).open_dumps().dom() == old(self).open_dumps().dom().insert(id.0),
            forall|k: u64| #[trigger] old(self).open_dumps().contains_key(k) ==> final(self).open_dumps()[k]
                == old(self).open_dumps()[k],
            ({
                let s = final(self).open_dumps()[id.0];
                &&& s.id == id
                &&& s.metadata == metadata
                &&& s.cache.cache_dir@ == old(self).base_cache_dir()
                &&& s.cache.dump_filename@ == cache_name(metadata.path@)
                &&& s.file_loader == file_loader
                &&& s.viewport == viewport
            }),
    {
        let id = DumpId::new(self.next_id);
        self.next_id = self.next_id + 1;
        let filename = match file_name_of(metadata.path.as_str()) {
            Some(n) => n,
            None => string_from_chars(chars_of("dump").as_slice()),
        };
        let cache = CacheManager::new(self.cache_dir.clone(), filename);
        let state = DumpFileState { id, metadata, cache, file_loader, viewport };
        let _ = self.dumps.insert(id.0, state);
        id
    }

    /// Get the state for a specific dump
    pub fn get_dump(&self, id: DumpId) -> (r: Result<&DumpFileState<L, V>, Error>)
        requires
            self.wf(),
        ensures
            self.open_dumps().contains_key(id.0) ==> (r matches Ok(s) && *s == self.open_dumps()[id.0]),
            !self.open_dumps().contains_key(id.0) ==> (r matches Err(Error::NotFound(m)) && m@ == not_found_text(id.0)),
    {
        match self.dumps.get(&id.0) {
            Some(s) => Ok(s),
            None => Err(not_found(id)),
        }
    }

    /// Close a dump file and clean up its resources
    pub fn close_dump(&mut self, id: DumpId) -> (r: Result<(), Error>)
        requires
            old(self).wf(),
        ensures
            final(self).wf(),
            final(self).open_dumps() == old(self).open_dumps().remove(id.0),
            final(self).next_number() == old(self).next_number(),
            final(self).base_cache_dir() == old(self).base_cache_dir(),
            old(self).open_dumps().contains_key(id.0) ==> r is Ok,
            !old(self).open_dumps().contains_key(id.0) ==> (r matches Err(Error::NotFound(m)) && m@ == not_found_text(id.0)),
    {
        match self.dumps.remove(&id.0) {
            Some(_) => Ok(()),
            None => Err(not_found(id)),
        }
    }

    /// Get list of all open dump IDs (in no particular order, each once)
    pub fn list_open_dumps(&self) -> (v: Vec<DumpId>)
        requires
            self.wf(),
        ensures
            v@.len() == self.open_dumps().dom().len(),
            forall|i: int, j: int| 0 <= i < j < v@.len() ==> v@[i] != v@[j],
            forall|i: int| 0 <= i < v@.len() ==> self.open_dumps().contains_key(#[trigger] v@[i].0),
            forall|k: u64| #[trigger] self.open_dumps().contains_key(k) ==> v@.contains(DumpId(k)),
    {
        let ghost keys = vstd::std_specs::hash::spec_keys_iter(&self.dumps).remaining().unref();
        let mut v: Vec<DumpId> = Vec::new();
        for k in it: self.dumps.keys()
            invariant
                it.seq().unref() == keys,
                v@.len() == it.index(),
                forall|i: int| 0 <= i < it.index() ==> #[trigger] v@[i] == DumpId(keys[i]),
        {
            v.push(DumpId(*k));
        }
        proof {
            assert(keys.to_set() == self.dumps@.dom());
            assert(keys.no_duplicates());
            assert forall|i: int| 0 <= i < v@.len() implies self.open_dumps().contains_key(#[trigger] v@[i].0) by {
                assert(keys.to_set().contains(keys[i]));
            }
            assert forall|k: u64| #[trigger] self.open_dumps().contains_key(k) implies v@.contains(DumpId(k)) by {
                assert(keys.to_set().contains(k));
                let i = choose|i: int| 0 <= i < keys.len() && keys[i] == k;
                assert(v@[i] == DumpId(k));
            }
        }
        v
    }

    /// Update viewport state for a dump
    pub fn update_viewport(&mut self, id: DumpId, viewport: V) -> (r: Result<(), Error>)
        requires
            old(self).wf(),
        ensures
            final(self).wf(),
            final(self).next_number() == old(self).next_number(),
            final(self).base_cache_dir() == old(self).base_cache_dir(),
            final(self).open_dumps().dom() == old(self).open_dumps().dom(),
            forall|k: u64| #[trigger] old(self).open_dumps().contains_key(k) && k != id.0
                ==> final(self).open_dumps()[k] == old(self).open_dumps()[k],
            old(self).open_dumps().contains_key(id.0) ==> r is Ok && ({
                let s = old(self).open_dumps()[id.0];
                final(self).open_dumps()[id.0] == DumpFileState {
                    id: s.id,
                    metadata: s.metadata,
                    cache: s.cache,
                    file_loader: s.file_loader,
                    viewport,
                }
            }),
            !old(self).open_dumps().contains_key(id.0) ==> (r matches Err(Error::NotFound(m)) && m@ == not_found_text(id.0)),
    {
        match self.dumps.remove(&id.0) {
            Some(s) => {
                let state = DumpFileState {
                    id: s.id,
                    metadata: s.metadata,
                    cache: s.cache,
                    file_loader: s.file_loader,
                    viewport,
                };
                let _ = self.dumps.insert(id.0, state);
                Ok(())
            },
            None => Err(not_found(id)),
        }
    }

    /// Get viewport state for a dump
    pub fn get_viewport(&self, id: DumpId) -> (r: Result<&V, Error>)
        requires
            self.wf(),
        ensures
            self.open_dumps().contains_key(id.0) ==> (r matches Ok(v) && *v == self.open_dumps()[id.0].viewport),
            !self.open_dumps().contains_key(id.0) ==> (r matches Err(Error::NotFound(m)) && m@ == not_found_text(id.0)),
    {
        match self.get_dump(id) {
            Ok(s) => Ok(&s.viewport),
            Err(e) => Err(e),
        }
    }
}

} // verus!
