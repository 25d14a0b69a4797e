//! The file layer over memory blocks, with files named by global-array key.
use vstd::prelude::*;
use crate::error::OpenclError;
use crate::ocl_fs_3::{cache_view, opened_key, path_lookup, FileError};
use crate::ocl_v7::{keys_readable, spec_next_key, MemoryBlock};

verus! {

/// An open file: the key of the global array that holds it.
#[derive(Debug, Clone)]
pub struct OclFile {
    global_array_key: String,
}

impl OclFile {
    /// The key of the global array that holds the file.
    pub closed spec fn spec_key(&self) -> Seq<char> {
        self.global_array_key@
    }

    /// The key of the global array that holds the file.
    pub fn global_array_key(&self) -> (k: &String)
        ensures
            k@ == self.spec_key(),
    {
        &self.global_array_key
    }
}

/// The path-to-key cache of the file layer.
#[derive(Debug)]
pub struct OclFs {
    pub inner: crate::ocl_fs_3::OclFs,
}

impl OclFs {
    /// A file layer with no files.
    pub fn new() -> (fs: Self)
        ensures
            fs.inner.cache@ == Seq::<(Seq<char>, String)>::empty(),
    {
        OclFs { inner: crate::ocl_fs_3::OclFs::new() }
    }

    /// Opens the file at `path`.
    pub fn open(&self, path: &str, memory_block: &MemoryBlock) -> (r: Result<OclFile, FileError>)
        ensures
            match r {
                Ok(f) => opened_key(cache_view(self.inner.cache@), memory_block.keys(), path@)
                    == Some(f.spec_key()),
                Err(e) => e == FileError::NotFound && opened_key(
                    cache_view(self.inner.cache@),
                    memory_block.keys(),
                    path@,
                ) == None::<Seq<char>>,
            },
    {
        match self.inner.open_key(path, memory_block.memory_map()) {
            Some(global_array_key) => Ok(OclFile { global_array_key }),
            None => Err(FileError::NotFound),
        }
    }

    /// Creates the file at `path` with room for `len` bytes.
    pub fn create_with_len(&mut self, path: &str, len: usize, memory_block: &mut MemoryBlock) -> (r:
        Result<OclFile, FileError>)
        requires
            keys_readable(old(memory_block).keys(), old(memory_block).configs()),
        ensures
            keys_readable(final(memory_block).keys(), final(memory_block).configs()),
            final(memory_block).configs() == old(memory_block).configs(),
            match r {
                Ok(f) => {
                    &&& spec_next_key(old(memory_block).keys(), old(memory_block).configs(), len as nat)
                        == Ok::<Seq<char>, OpenclError>(f.spec_key())
                    &&& final(memory_block).keys() == old(memory_block).keys().push((f.spec_key(), len as u64))
                    &&& path_lookup(cache_view(final(self).inner.cache@), path@) == Some(f.spec_key())
                },
                Err(e) => {
                    &&& e != FileError::NotFound
                    &&& final(memory_block).keys() == old(memory_block).keys()
                    &&& final(self).inner.cache@ == old(self).inner.cache@
                },
            },
    {
        match self.inner.create_key_with_len(path, len, memory_block) {
            Ok(global_array_key) => Ok(OclFile { global_array_key }),
            Err(e) => Err(e),
        }
    }
}

} // verus!
