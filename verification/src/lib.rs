//! Memory-block bookkeeping, key handling and OpenCL program-source generation
//! for a GPU-backed array store.
use vstd::prelude::*;

pub mod text;
pub mod error;
pub mod ocl_fs;
pub mod ocl_fs_2;
pub mod ocl_fs_3;
pub mod ocl_fs_config;
pub mod ocl_v1;
pub mod process;
pub mod ocl_v2;
pub mod ocl_v3;
pub mod ocl_v5;
pub mod ocl_v6;
pub mod ocl_v7;
pub mod rs_core;
pub mod rs_extra;
pub mod rs_macro;
pub mod cool;
pub mod server;
pub mod cli;
pub mod hello_macro;

verus! {

/// Number of slots in a [`ClArray`].
pub const LIST_SIZE: usize = 255;

/// Fixed-size array of OpenCL integers.
pub type ClArray = [i32; 255];

/// Greeting used by the smoke tests.
pub fn hello() -> (s: String)
    ensures
        s@ == "hello"@,
{
    "hello".to_string()
}

/// Copies `s` into a zero-filled [`ClArray`], widening each byte.
pub fn to_array(s: &[u8]) -> (arr: ClArray)
    requires
        s@.len() <= LIST_SIZE,
    ensures
        forall|i: int| 0 <= i < s@.len() ==> arr@[i] == s@[i] as i32,
        forall|i: int| s@.len() <= i < LIST_SIZE ==> arr@[i] == 0,
{
    let mut temp: ClArray = [0; 255];
    let mut i: usize = 0;
    while i < s.len()
        invariant
            i <= s@.len() <= LIST_SIZE,
            temp@.len() == LIST_SIZE,
            forall|j: int| 0 <= j < i ==> temp@[j] == s@[j] as i32,
            forall|j: int| i <= j < LIST_SIZE ==> temp@[j] == 0,
        decreases s@.len() - i,
    {
        temp[i] = s[i] as i32;
        i = i + 1;
    }
    temp
}

} // verus!
