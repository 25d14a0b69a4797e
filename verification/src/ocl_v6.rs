//! Program generation for a list of named global-array blocks.
use vstd::prelude::*;
use crate::text::{contains_seq, decimal};
use crate::ocl_v7::{initializers_defined, program_source, program_source_of, ConfigSeq, MemoryBlockConfig};

verus! {

/// One kibibyte.
pub const KB_1: usize = 1024;

/// One mebibyte.
pub const MB_1: usize = 1048576;

/// Prefix of the kernels that store a vector into a global array.
pub const VECTOR_ADD_KERNEL_NAME: &'static str = "vector_add";

/// Prefix of the kernels that copy a global array out.
pub const VECTOR_EXTRACT_KERNEL_NAME: &'static str = "vector_extract";

/// A named block of equally sized global arrays.
#[derive(Debug)]
pub struct GlobalArrayBlockConfig {
    pub name: String,
    pub global_array_capacity: usize,
    pub global_array_count: usize,
    pub negative_initial_value: bool,
}

/// Blocks in the order they are declared.
pub type BlockConfigMap = Vec<GlobalArrayBlockConfig>;

/// The names and shapes of a list of blocks.
pub open spec fn blocks_view(v: Seq<GlobalArrayBlockConfig>) -> ConfigSeq {
    Seq::new(
        v.len(),
        |i: int|
            (
                v[i].name@,
                MemoryBlockConfig {
                    global_array_capacity: v[i].global_array_capacity,
                    global_array_count: v[i].global_array_count,
                    negative_initial_value: v[i].negative_initial_value,
                },
            ),
    )
}

/// The OpenCL program that declares every global array of the blocks and the
/// store and copy-out kernel of every block, in list order.
pub fn gen_vector_program_source(block_config: Vec<GlobalArrayBlockConfig>) -> (s: String)
    requires
        initializers_defined(blocks_view(block_config@)),
    ensures
        s@ == program_source(blocks_view(block_config@)),
{
    let mut blocks: Vec<(String, MemoryBlockConfig)> = Vec::new();
    let mut i: usize = 0;
    while i < block_config.len()
        invariant
            i <= block_config@.len(),
            blocks@.len() == i,
            forall|k: int|
                0 <= k < i ==> (#[trigger] blocks@[k]).0@ == blocks_view(block_config@)[k].0
                    && blocks@[k].1 == blocks_view(block_config@)[k].1,
        decreases block_config@.len() - i,
    {
        let c = &block_config[i];
        blocks.push(
            (
                c.name.clone(),
                MemoryBlockConfig {
                    global_array_capacity: c.global_array_capacity,
                    global_array_count: c.global_array_count,
                    negative_initial_value: c.negative_initial_value,
                },
            ),
        );
        i = i + 1;
    }
    assert(Seq::new(blocks@.len(), |k: int| (blocks@[k].0@, blocks@[k].1)) =~= blocks_view(
        block_config@,
    ));
    program_source_of(&blocks)
}

/// The program of a block list declares every array of every listed block:
/// array `j` of block `i` carries that block's name, exactly its capacity, and
/// the -1 initializer exactly when that block asks for it.
pub proof fn lemma_program_declares_arrays(v: Seq<GlobalArrayBlockConfig>, i: int, j: nat)
    requires
        0 <= i < v.len(),
        j < v[i].global_array_count,
    ensures
        contains_seq(
            program_source(blocks_view(v)),
            "\n    __global int arr_"@ + v[i].name@ + "_"@ + decimal(j) + "["@ + decimal(
                v[i].global_array_capacity as nat,
            ) + (if v[i].negative_initial_value {
                "] = { [0 ... "@ + decimal((v[i].global_array_capacity - 1) as nat)
                    + "] = -1 };"@
            } else {
                "];"@
            }),
        ),
{
    crate::ocl_v7::lemma_program_declares_arrays(blocks_view(v), i, j);
}

} // verus!
