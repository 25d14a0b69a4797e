//! Numbered global arrays of one size, and the bookkeeping of which of them
//! hold data.
use vstd::prelude::*;
use crate::error::{
    OpenClResult, OpenclError, GLOBAL_ARRAY_ID_ASSIGNED, INVALID_BUFFER_LEN,
    INVALID_GLOBAL_ARRAY_ID, NO_GLOBAL_VECTORS_TO_ASSIGN,
};
use crate::ocl_v3::numbered_program;
use std::collections::HashMap;

verus! {

/// One kibibyte.
pub const KB_1: usize = 1024;

/// One mebibyte.
pub const MB_1: usize = 1048576;

/// Elements per global array.
pub const SIZE: usize = 4194304;

/// Elements per global array.
pub const LIST_SIZE: usize = 4194304;

/// Largest index of a global array.
pub const TOTAL_GLOBAL_ARRAY: usize = 32;

/// Capacity of a global array.
pub const CAPACITY_GLOBAL_ARRAY: usize = 4194304;

/// Name of the kernel that stores a vector into a global array.
pub const KERNEL_NAME: &'static str = "vector_add";

/// Name of the kernel that copies a global array out.
pub const EXTRACT_KERNEL_NAME: &'static str = "vector_extract";

broadcast use vstd::std_specs::hash::group_hash_axioms;

/// Global arrays that hold data, by index, with the length stored in each.
pub type GlobalArrayMap = HashMap<u32, u64>;

/// `i` is one of the indices of `m`.
pub open spec fn has_index(m: Map<u32, u64>, i: u32) -> bool {
    m.dom().contains(i)
}

/// `p` is an index of `m` and no index of `m` is larger.
pub open spec fn is_max_index(m: Map<u32, u64>, p: u32) -> bool {
    m.dom().contains(p) && forall|q: u32| #[trigger] m.dom().contains(q) ==> q <= p
}

/// Largest index of `m`, if it has one.
pub open spec fn max_index(m: Map<u32, u64>) -> Option<u32> {
    if exists|p: u32| is_max_index(m, p) {
        Some(choose|p: u32| is_max_index(m, p))
    } else {
        None
    }
}

/// A map with finitely many indices has a largest index exactly when it has
/// any, and [`max_index`] is that index.
pub proof fn lemma_max_index(m: Map<u32, u64>)
    requires
        m.dom().finite(),
    ensures
        match max_index(m) {
            None => m.dom().is_empty(),
            Some(p) => is_max_index(m, p),
        },
{
    if !m.dom().is_empty() {
        let p = lemma_set_max(m.dom());
        assert(is_max_index(m, p));
    }
}

/// A finite non-empty set of indices has a largest element.
proof fn lemma_set_max(s: Set<u32>) -> (p: u32)
    requires
        s.finite(),
        !s.is_empty(),
    ensures
        s.contains(p),
        forall|q: u32| #[trigger] s.contains(q) ==> q <= p,
    decreases s.len(),
{
    let x = s.choose();
    let rest = s.remove(x);
    if rest.is_empty() {
        assert forall|q: u32| #[trigger] s.contains(q) implies q <= x by {
            if q != x {
                assert(rest.contains(q));
            }
        }
        x
    } else {
        assert(s.len() > 0) by {
            if s.len() == 0 {
                s.lemma_len0_is_empty();
            }
        }
        let y = lemma_set_max(rest);
        if x < y {
            y
        } else {
            assert forall|q: u32| #[trigger] s.contains(q) implies q <= x by {
                if q != x {
                    assert(rest.contains(q));
                }
            }
            x
        }
    }
}

/// The index handed out next: one past the largest index holding data, or 0
/// when none does; fails when the largest index is past [`TOTAL_GLOBAL_ARRAY`].
pub fn get_global_array_index(global_arrays: &GlobalArrayMap) -> (r: OpenClResult<u32>)
    ensures
        match max_index(global_arrays@) {
            None => r == Ok::<u32, OpenclError>(0),
            Some(p) => if p > TOTAL_GLOBAL_ARRAY {
                r == Err::<u32, OpenclError>(OpenclError::CustomOpenCl(NO_GLOBAL_VECTORS_TO_ASSIGN))
            } else {
                r == Ok::<u32, OpenclError>((p + 1) as u32)
            },
        },
{
    let mut max: Option<u32> = None;
    for x in it: global_arrays.keys()
        invariant
            match max {
                None => it.index() == 0,
                Some(p) => global_arrays@.dom().contains(p) && forall|j: int|
                    0 <= j < it.index() ==> *it.seq()[j] <= p,
            },
            it.seq().unref().to_set() == global_arrays@.dom(),
    {
        max = match max {
            None => Some(*x),
            Some(p) => Some(if p < *x { *x } else { p }),
        };
    }
    proof {
        lemma_max_index(global_arrays@);
        if let Some(p) = max {
            assert(is_max_index(global_arrays@, p));
            let q = max_index(global_arrays@)->0;
            assert(p <= q && q <= p);
        }
    }
    match max {
        Some(i) => {
            if i > TOTAL_GLOBAL_ARRAY as u32 {
                return Err(OpenclError::CustomOpenCl(NO_GLOBAL_VECTORS_TO_ASSIGN));
            }
            Ok(i + 1)
        },
        None => Ok(0),
    }
}

/// The index handed out next holds no data yet.
pub proof fn lemma_next_index_free(m: Map<u32, u64>)
    requires
        m.dom().finite(),
    ensures
        match max_index(m) {
            None => !has_index(m, 0),
            Some(p) => p < u32::MAX ==> !has_index(m, (p + 1) as u32),
        },
{
    lemma_max_index(m);
}

/// Whether a buffer of `buf_len` bytes may be stored in global array `index`:
/// it must fit a vector, name an existing array, and that array must hold no data.
pub fn check_enqueue_buffer(global_arrays: &GlobalArrayMap, buf_len: usize, index: u32) -> (r:
    OpenClResult<()>)
    ensures
        r == if buf_len > LIST_SIZE {
            Err::<(), OpenclError>(OpenclError::CustomOpenCl(INVALID_BUFFER_LEN))
        } else if index > TOTAL_GLOBAL_ARRAY {
            Err::<(), OpenclError>(OpenclError::CustomOpenCl(INVALID_GLOBAL_ARRAY_ID))
        } else if has_index(global_arrays@, index) {
            Err::<(), OpenclError>(OpenclError::CustomOpenCl(GLOBAL_ARRAY_ID_ASSIGNED))
        } else {
            Ok::<(), OpenclError>(())
        },
{
    if buf_len > LIST_SIZE {
        return Err(OpenclError::CustomOpenCl(INVALID_BUFFER_LEN));
    }
    if index > TOTAL_GLOBAL_ARRAY as u32 {
        return Err(OpenclError::CustomOpenCl(INVALID_GLOBAL_ARRAY_ID));
    }
    match global_arrays.get(&index) {
        Some(_) => Err(OpenclError::CustomOpenCl(GLOBAL_ARRAY_ID_ASSIGNED)),
        None => Ok(()),
    }
}

/// Whether global array `index` may be read back.
pub fn check_dequeue_buffer(index: u32) -> (r: OpenClResult<()>)
    ensures
        r == if index > TOTAL_GLOBAL_ARRAY {
            Err::<(), OpenclError>(OpenclError::CustomOpenCl(INVALID_GLOBAL_ARRAY_ID))
        } else {
            Ok::<(), OpenclError>(())
        },
{
    if index > TOTAL_GLOBAL_ARRAY as u32 {
        return Err(OpenclError::CustomOpenCl(INVALID_GLOBAL_ARRAY_ID));
    }
    Ok(())
}

/// The OpenCL program with `arrays` global arrays of `capacity` elements.
pub fn gen_vector_program_source(arrays: usize, capacity: usize) -> (s: String)
    ensures
        s@ == numbered_program(arrays as nat, capacity as nat),
{
    crate::ocl_v3::gen_vector_program_source(arrays, capacity)
}

} // verus!
