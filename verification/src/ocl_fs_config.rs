//! Two ready-made block layouts.
use vstd::prelude::*;
use crate::ocl_v6::{blocks_view, BlockConfigMap, GlobalArrayBlockConfig, KB_1, MB_1};
use crate::ocl_v7::{block_config, ConfigSeq};

verus! {

/// A block of `count` arrays of `capacity` elements, not initialized to -1.
fn block(name: &str, capacity: usize, count: usize) -> (b: GlobalArrayBlockConfig)
    ensures
        b.name@ == name@,
        b.global_array_capacity == capacity,
        b.global_array_count == count,
        !b.negative_initial_value,
{
    GlobalArrayBlockConfig {
        name: name.to_string(),
        global_array_capacity: capacity,
        global_array_count: count,
        negative_initial_value: false,
    }
}

/// The many-block layout: ten blocks from one kibibyte to nine mebibytes.
pub open spec fn config_a_seq() -> ConfigSeq {
    seq![
        ("1kb"@, block_config(1024, 9000)),
        ("2kb"@, block_config(2048, 4000)),
        ("4kb"@, block_config(4096, 1800)),
        ("6kb"@, block_config(6144, 1000)),
        ("8kb"@, block_config(8192, 500)),
        ("128_kb"@, block_config(131072, 1500)),
        ("512_kb"@, block_config(524288, 300)),
        ("1mb"@, block_config(1048576, 32)),
        ("2mb"@, block_config(2097152, 32)),
        ("9mb"@, block_config(9437184, 16)),
    ]
}

/// The single-block layout: one array of fifty mebibytes.
pub open spec fn config_b_seq() -> ConfigSeq {
    seq![
        ("50mb"@, block_config(52428800, 1)),
    ]
}

/// The many-block layout.
pub fn config_a() -> (m: BlockConfigMap)
    ensures
        blocks_view(m@) == config_a_seq(),
{
    let mut m: BlockConfigMap = Vec::new();
    m.push(block("1kb", KB_1, 9000));
    m.push(block("2kb", KB_1 * 2, 4000));
    m.push(block("4kb", KB_1 * 4, 1800));
    m.push(block("6kb", KB_1 * 6, 1000));
    m.push(block("8kb", KB_1 * 8, 500));
    m.push(block("128_kb", KB_1 * 128, 1500));
    m.push(block("512_kb", KB_1 * 512, 300));
    m.push(block("1mb", MB_1, 32));
    m.push(block("2mb", MB_1 * 2, 32));
    m.push(block("9mb", MB_1 * 9, 16));
    assert(blocks_view(m@) =~= config_a_seq());
    m
}

/// The single-block layout.
pub fn config_b() -> (m: BlockConfigMap)
    ensures
        blocks_view(m@) == config_b_seq(),
{
    let mut m: BlockConfigMap = Vec::new();
    m.push(block("50mb", MB_1 * 50, 1));
    assert(blocks_view(m@) =~= config_b_seq());
    m
}

} // verus!
