use cl::error::{OpenclError, INVALID_BUFFER_LEN, INVALID_GLOBAL_ARRAY_ID, NO_GLOBAL_VECTORS_TO_ASSIGN};
use cl::ocl_v7::{
    decode_output, default_memory_block, default_memory_block_config, dequeue_plan, enqueue_plan,
    explain_memory_block_config, get_index_from_key, get_kernel_name, get_name_from_key,
    prepare_input, MemoryBlock, MemoryBlockConfig, MemoryBlockConfigMap, KB_1, MB_1,
};

fn config(capacity: usize, count: usize) -> MemoryBlockConfig {
    MemoryBlockConfig {
        global_array_capacity: capacity,
        global_array_count: count,
        negative_initial_value: false,
    }
}

#[test]
fn key_parts_round_trip() {
    assert_eq!(get_index_from_key("128_kb_17"), 17);
    assert_eq!(get_name_from_key("128_kb_17"), "128_kb");
    assert_eq!(get_index_from_key("1kb_+5"), 5);
    assert_eq!(get_kernel_name("vector_add", "1kb"), "vector_add_1kb");
}

#[test]
fn set_key_by_len_hands_out_fresh_keys() {
    let mut c = MemoryBlockConfigMap::new();
    c.insert("1kb", config(KB_1, 2));
    c.insert("1mb", config(MB_1, 1));
    let mut block = MemoryBlock::new(c);
    assert_eq!(block.set_key_by_len(10).unwrap(), "1kb_0");
    assert_eq!(block.set_key_by_len(10).unwrap(), "1kb_1");
    assert_eq!(block.set_key_by_len(10).unwrap(), "1mb_0");
    assert_eq!(
        block.set_key_by_len(10),
        Err(OpenclError::CustomOpenCl(INVALID_BUFFER_LEN))
    );
    assert_eq!(block.memory_map().len(), 3);
    assert!(block.has_readable_keys());
}

#[test]
fn no_key_past_the_last_array_of_a_block() {
    let mut c = MemoryBlockConfigMap::new();
    c.insert("1kb", config(KB_1, 3));
    let mut block = MemoryBlock::new(c);
    block.set_key("1kb_2", 0);
    assert_eq!(
        block.get_key(10),
        Err(OpenclError::CustomOpenCl(NO_GLOBAL_VECTORS_TO_ASSIGN))
    );
}

#[test]
fn too_long_buffer_gets_no_key() {
    let block = default_memory_block();
    assert_eq!(
        block.get_key(10 * MB_1),
        Err(OpenclError::CustomOpenCl(INVALID_BUFFER_LEN))
    );
}

#[test]
fn config_by_key() {
    let block = default_memory_block();
    let (name, cfg) = block.get_config_by_key("128_kb_3").unwrap();
    assert_eq!(name, "128_kb");
    assert_eq!(cfg.global_array_capacity, 128 * KB_1);
    assert_eq!(
        block.get_config_by_key("3kb_0").map(|_| ()),
        Err(OpenclError::CustomOpenCl(INVALID_GLOBAL_ARRAY_ID))
    );
}

#[test]
fn summary_counts_keys_per_block() {
    let mut c = MemoryBlockConfigMap::new();
    c.insert("1kb", config(KB_1, 3));
    c.insert("1mb", config(MB_1, 2));
    let mut block = MemoryBlock::new(c);
    block.set_key_by_len(1).unwrap();
    block.set_key_by_len(2).unwrap();
    block.set_key_by_len(KB_1 + 1).unwrap();
    let s = block.summary();
    assert_eq!(s.len(), 2);
    assert_eq!(s[0].block_name, "1kb");
    assert_eq!(s[0].assigned, 2);
    assert_eq!(s[1].block_name, "1mb");
    assert_eq!(s[1].assigned, 1);
    assert_eq!(s[1].global_array_count, 2);
    assert_eq!(cl::ocl_fs_3::assigned_total(&s), 3);
}

#[test]
fn readable_keys_detects_bad_index() {
    let mut c = MemoryBlockConfigMap::new();
    c.insert("1kb", config(KB_1, 3));
    let mut block = MemoryBlock::new(c);
    assert!(block.has_readable_keys());
    block.set_key("1kb_x", 0);
    assert!(!block.has_readable_keys());
}

#[test]
fn enqueue_plan_lays_out_the_buffer() {
    let mut c = MemoryBlockConfigMap::new();
    c.insert("small", config(4, 2));
    let block = MemoryBlock::new(c);
    let plan = enqueue_plan(&block, &[7, 8], "small_1").unwrap();
    assert_eq!(plan.kernel_name, "vector_add_small");
    assert_eq!(plan.vector_size, 4);
    assert_eq!(plan.input, vec![7, 8, -1, -1]);
    assert_eq!(plan.selector, vec![1, 1, 1, 1]);
    assert_eq!(
        enqueue_plan(&block, &[7], "small_2").map(|_| ()),
        Err(OpenclError::CustomOpenCl(INVALID_GLOBAL_ARRAY_ID))
    );
    assert_eq!(
        enqueue_plan(&block, &[7], "large_0").map(|_| ()),
        Err(OpenclError::CustomOpenCl(INVALID_GLOBAL_ARRAY_ID))
    );
}

#[test]
fn dequeue_plan_selects_the_array() {
    let mut c = MemoryBlockConfigMap::new();
    c.insert("small", config(4, 2));
    let block = MemoryBlock::new(c);
    let plan = dequeue_plan(&block, "small_2").unwrap();
    assert_eq!(plan.kernel_name, "vector_extract_small");
    assert_eq!(plan.selector, vec![2, 2, 2, 2]);
    assert!(dequeue_plan(&block, "small_3").is_err());
}

#[test]
fn decoding_a_prepared_input_gives_the_buffer() {
    let buf = b"hello".to_vec();
    assert_eq!(decode_output(&prepare_input(&buf, 8)), buf);
    assert_eq!(decode_output(&prepare_input(&buf, 3)), b"hel".to_vec());
    assert_eq!(prepare_input(&buf, 7), vec![104, 101, 108, 108, 111, -1, -1]);
}

#[test]
fn footprints_of_default_configuration() {
    let c = default_memory_block_config();
    let (v, count) = explain_memory_block_config(&c);
    assert_eq!(v.len(), c.len());
    assert_eq!(v[0].block_name, "1kb");
    assert_eq!(v[0].bytes, 1024 * 2400);
    assert_eq!(count, 2400 + 1200 + 600 + 200 + 200 + 500 + 200 + 10 + 10 + 10);
}

#[test]
fn handed_out_key_stores_and_reads_back() {
    let mut block = default_memory_block();
    let buf: Vec<u8> = (0..1500u32).map(|i| (i % 256) as u8).collect();
    let key = block.set_key_by_len(buf.len()).unwrap();
    assert_eq!(key, "2kb_0");
    let plan = enqueue_plan(&block, &buf, &key).unwrap();
    assert_eq!(plan.vector_size, 2 * KB_1);
    assert_eq!(decode_output(&plan.input), buf);
    assert!(dequeue_plan(&block, &key).is_ok());
}

#[test]
fn keys_of_a_run_are_distinct_and_counted() {
    let mut c = MemoryBlockConfigMap::new();
    c.insert("1kb", config(KB_1, 3));
    c.insert("4kb", config(4 * KB_1, 2));
    let mut block = MemoryBlock::new(c);
    let lens = [10, 2000, 5000, 1, 1, 1, 1, 3000, 4096, 100];
    let mut keys: Vec<String> = Vec::new();
    for len in lens {
        if let Ok(k) = block.set_key_by_len(len) {
            keys.push(k);
        }
    }
    assert_eq!(keys, vec!["1kb_0", "4kb_0", "1kb_1", "1kb_2", "4kb_1"]);
    assert_eq!(block.memory_map().len(), keys.len());
    for k in &keys {
        let (_, cfg) = block.get_config_by_key(k).unwrap();
        assert!((get_index_from_key(k) as usize) < cfg.global_array_count);
    }
}
