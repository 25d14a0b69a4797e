//! The file layer over numbered global arrays: each path is mapped to the index
//! of the array that holds the file's bytes.
use vstd::prelude::*;
use crate::error::{OpenclError, NO_GLOBAL_VECTORS_TO_ASSIGN};
use crate::ocl_fs_3::{path_lookup, FileError, PathMap};
use crate::ocl_v5::{
    check_enqueue_buffer, get_global_array_index, has_index, max_index, GlobalArrayMap,
    TOTAL_GLOBAL_ARRAY,
};

verus! {

broadcast use vstd::std_specs::hash::group_hash_axioms;

/// Array indices of the files, by path.
pub type FileCacheMap = PathMap<u32>;

/// An open file: the index of the global array that holds it.
#[derive(Debug, Clone, Copy)]
pub struct OclFile {
    global_array_index: u32,
}

impl OclFile {
    /// The index of the global array that holds the file.
    pub closed spec fn spec_index(&self) -> u32 {
        self.global_array_index
    }

    /// The index of the global array that holds the file.
    pub fn global_array_index(&self) -> (i: u32)
        ensures
            i == self.spec_index(),
    {
        self.global_array_index
    }
}

/// The index handed to a new file: one past the largest index holding data (0
/// when none does), provided that array exists and holds no data.
pub open spec fn spec_assigned_index(m: Map<u32, u64>) -> Result<u32, OpenclError> {
    let next: u32 = match max_index(m) {
        None => 0u32,
        Some(p) => (p + 1) as u32,
    };
    if max_index(m) matches Some(p) && p > TOTAL_GLOBAL_ARRAY {
        Err(OpenclError::CustomOpenCl(NO_GLOBAL_VECTORS_TO_ASSIGN))
    } else if next > TOTAL_GLOBAL_ARRAY {
        Err(OpenclError::CustomOpenCl(crate::error::INVALID_GLOBAL_ARRAY_ID))
    } else {
        Ok(next)
    }
}

/// An index handed to a new file names an existing global array that holds no
/// data yet: one that a buffer may then be stored in.
pub proof fn lemma_assigned_index_usable(m: Map<u32, u64>)
    requires
        m.dom().finite(),
    ensures
        spec_assigned_index(m) matches Ok(i) ==> i <= TOTAL_GLOBAL_ARRAY && !has_index(m, i),
{
    crate::ocl_v5::lemma_next_index_free(m);
}

/// Hands out the next free global array and records it as holding no bytes; the
/// caller then fills that array with an empty buffer.
pub fn assign_global_array_index(global_arrays: &mut GlobalArrayMap) -> (r: Result<u32, OpenclError>)
    ensures
        r == spec_assigned_index(old(global_arrays)@),
        r matches Ok(i) ==> i <= TOTAL_GLOBAL_ARRAY && !has_index(old(global_arrays)@, i),
        match r {
            Ok(i) => final(global_arrays)@ == old(global_arrays)@.insert(i, 0u64),
            Err(_) => final(global_arrays)@ == old(global_arrays)@,
        },
{
    let i = match get_global_array_index(global_arrays) {
        Ok(i) => i,
        Err(e) => {
            return Err(e);
        },
    };
    proof {
        crate::ocl_v5::lemma_next_index_free(global_arrays@);
    }
    match check_enqueue_buffer(global_arrays, 0, i) {
        Ok(()) => {},
        Err(e) => {
            return Err(e);
        },
    }
    global_arrays.insert(i, 0);
    Ok(i)
}

/// The path-to-index cache of the file layer.
#[derive(Debug)]
pub struct OclFs {
    pub cache: FileCacheMap,
}

impl OclFs {
    /// A file layer with no files.
    pub fn new() -> (fs: Self)
        ensures
            fs.cache@ == Seq::<(Seq<char>, u32)>::empty(),
    {
        OclFs { cache: PathMap::new() }
    }

    /// Opens the file at `path`: its cached index, if that array holds data.
    pub fn open(&self, path: &str, global_arrays: &GlobalArrayMap) -> (r: Result<OclFile, FileError>)
        ensures
            match r {
                Ok(f) => path_lookup(self.cache@, path@) == Some(f.spec_index()) && has_index(
                    global_arrays@,
                    f.spec_index(),
                ),
                Err(e) => e == FileError::NotFound && match path_lookup(self.cache@, path@) {
                    Some(i) => !has_index(global_arrays@, i),
                    None => true,
                },
            },
    {
        match self.cache.get(path) {
            Some(v) => {
                match global_arrays.get(v) {
                    Some(_) => Ok(OclFile { global_array_index: *v }),
                    None => Err(FileError::NotFound),
                }
            },
            None => Err(FileError::NotFound),
        }
    }

    /// Creates the file at `path`: it keeps its cached index, or gets the next free
    /// global array.
    pub fn create(&mut self, path: &str, global_arrays: &mut GlobalArrayMap) -> (r: Result<OclFile, FileError>)
        ensures
            match r {
                Ok(f) => {
                    &&& path_lookup(final(self).cache@, path@) == Some(f.spec_index())
                    &&& match path_lookup(old(self).cache@, path@) {
                        Some(i) => f.spec_index() == i && final(global_arrays)@ == old(global_arrays)@,
                        None => spec_assigned_index(old(global_arrays)@) == Ok::<u32, OpenclError>(
                            f.spec_index(),
                        ) && final(global_arrays)@ == old(global_arrays)@.insert(
                            f.spec_index(),
                            0u64,
                        ),
                    }
                },
                Err(e) => {
                    &&& path_lookup(old(self).cache@, path@) == None::<u32>
                    &&& e == FileError::OpenCl(spec_assigned_index(old(global_arrays)@)->Err_0)
                    &&& spec_assigned_index(old(global_arrays)@) is Err
                    &&& final(global_arrays)@ == old(global_arrays)@
                    &&& final(self).cache@ == old(self).cache@
                },
            },
    {
        let index = match self.cache.get(path) {
            None => match assign_global_array_index(global_arrays) {
                Ok(i) => i,
                Err(e) => {
                    return Err(FileError::OpenCl(e));
                },
            },
            Some(v) => *v,
        };
        self.cache.insert(path, index);
        Ok(OclFile { global_array_index: index })
    }
}

} // verus!
