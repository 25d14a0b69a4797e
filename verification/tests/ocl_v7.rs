use cl::ocl_v7::{
    check_memory_block_config, default_memory_block_config, explain_memory_block_config,
    gen_vector_program_source, get_name_from_key, MemoryBlock, MemoryBlockConfig,
    MemoryBlockConfigMap, KB_1, KB_1_S, MB_1, MB_1_S,
};

fn config(capacity: usize, count: usize) -> MemoryBlockConfig {
    MemoryBlockConfig {
        global_array_capacity: capacity,
        global_array_count: count,
        negative_initial_value: false,
    }
}

#[test]
fn check_default_config() {
    let c = default_memory_block_config();
    let result = check_memory_block_config(&c);
    assert_eq!(result, true);
}

#[test]
fn check_config_1() {
    let mut m = MemoryBlockConfigMap::new();
    m.insert("1kb", config(KB_1, 3));
    m.insert("1mb", config(MB_1, 2));

    let result = check_memory_block_config(&m);
    assert_eq!(result, true);
}

#[test]
fn check_config_2() {
    let mut m = MemoryBlockConfigMap::new();
    m.insert("8kb", config(KB_1, 3));
    m.insert("128kb", config(MB_1, 2));

    let result = check_memory_block_config(&m);
    assert_eq!(result, false);
}

#[test]
fn generate_default_program_source() {
    let c = default_memory_block_config();
    let result = gen_vector_program_source(&c);
    assert_ne!(result.len(), 0);
}

#[test]
fn ocl_v7_generate_program_source() {
    let mut m = MemoryBlockConfigMap::new();
    m.insert("1kb", config(KB_1, 3));
    m.insert("1mb", config(MB_1, 2));

    let result = gen_vector_program_source(&m);
    println!("{result}");
    assert_ne!(result.len(), 0);
}

#[test]
fn get_block_name_by_len() {
    let mut c = MemoryBlockConfigMap::new();
    c.insert("1kb", config(KB_1, 3));
    c.insert("1mb", config(MB_1, 2));
    let block = MemoryBlock::new(c);

    let o1 = block.get_config_by_len(KB_1).ok().unwrap();
    let o2 = block.get_config_by_len(MB_1).ok().unwrap();
    let o3 = block.get_config_by_len(KB_1 + 1).ok().unwrap();
    let o4 = block.get_config_by_len(KB_1 - 1).ok().unwrap();
    let o5 = block.get_config_by_len(0).ok().unwrap();

    let o6 = block.get_config_by_len(MB_1 * 4).is_err();

    assert_eq!(o1.0, KB_1_S);
    assert_eq!(o2.0, MB_1_S);
    assert_eq!(o3.0, MB_1_S);
    assert_eq!(o4.0, KB_1_S);
    assert_eq!(o5.0, KB_1_S);

    assert_eq!(o6, true);
}

#[test]
fn get_block_key_1() {
    let mut c = MemoryBlockConfigMap::new();
    c.insert("1kb", config(KB_1, 3));
    let mut block = MemoryBlock::new(c);

    let r1 = block.get_key(KB_1).unwrap();
    println!("r1 {r1:?}");
    block.set_key(&r1, 0);
    let r2 = block.get_key(KB_1 - 256).unwrap();
    println!("r2 {r2:?}");
    block.set_key(&r2, 0);
    let r3 = block.get_key(KB_1 - 512).unwrap();
    println!("r3 {r3:?}");
    block.set_key(&r3, 0);

    let r4 = block.get_key(KB_1).is_err();
    println!("r4 {r4:?}");

    println!("cache {:#?}", block.config_map());

    assert_eq!(r1, "1kb_0");
    assert_eq!(r2, "1kb_1");
    assert_eq!(r3, "1kb_2");
    assert_eq!(r4, true);
    assert_eq!(block.memory_map().len(), 3);
}

#[test]
fn get_block_key_2() {
    let mut c = MemoryBlockConfigMap::new();
    c.insert("1kb", config(KB_1, 1));
    let mut block = MemoryBlock::new(c);

    let r1 = block.get_key(KB_1).unwrap();
    println!("r1 {r1:?}");
    block.set_key(&r1, 0);
    let r2 = block.get_key(KB_1).is_err();
    println!("r2 {r2:?}");

    println!("cache {:#?}", block.config_map());

    assert_eq!(r1, "1kb_0");
    assert_eq!(r2, true);
    assert_eq!(block.config_map().len(), 1);
}

#[test]
fn get_block_key_3() {
    let mut c = MemoryBlockConfigMap::new();
    c.insert("1kb", config(KB_1, 0));
    let block = MemoryBlock::new(c);
    let r = block.get_key(KB_1).is_err();
    assert_eq!(r, true);
}

#[test]
fn get_block_key_4() {
    let mut c = MemoryBlockConfigMap::new();
    c.insert("1kb", config(KB_1, 1));
    c.insert("1mb", config(MB_1, 1));
    let mut block = MemoryBlock::new(c);

    let r1 = block.get_key(KB_1).unwrap();
    println!("r1 {r1:?}");
    block.set_key(&r1, 0);
    let r2 = block.get_key(KB_1).unwrap();
    println!("r2 {r2:?}");
    block.set_key(&r2, 0);
    let r3 = block.get_key(KB_1).is_err();
    println!("r3 {r3:?}");

    println!("cache {:#?}", block.config_map());

    assert_eq!(r1, "1kb_0");
    assert_eq!(r2, "1mb_0");
    assert_eq!(r3, true);
    assert_eq!(block.config_map().len(), 2);
}

#[test]
fn get_block_key_5() {
    let mut c = MemoryBlockConfigMap::new();
    c.insert("1kb", config(KB_1, 1));
    c.insert("0cap", config(KB_1, 0));
    c.insert("512b", config(KB_1 - 512, 1));
    c.insert("1mb", config(MB_1, 1));
    let mut block = MemoryBlock::new(c);

    let r1 = block.get_key(MB_1 * 4).is_err();
    println!("r1 {r1:?}");

    let r2 = block.get_key(MB_1).unwrap();
    println!("r2 {r2:?}");
    block.set_key(&r2, 0);

    let r3 = block.get_key(KB_1 - 256).unwrap();
    println!("r3 {r3:?}");
    block.set_key(&r3, 0);

    let r4 = block.get_key(KB_1 - 512 - 128).unwrap();
    println!("r4 {r4:?}");
    block.set_key(&r4, 0);

    let r5 = block.get_key(KB_1).is_err();
    println!("r5 {r5:?}");

    println!("cache {:#?}", block.config_map());

    assert_eq!(r1, true);
    assert_eq!(r2, "1mb_0");
    assert_eq!(r3, "1kb_0");
    assert_eq!(r4, "512b_0");
    assert_eq!(r5, true);
    assert_eq!(block.memory_map().len(), 3);
}

#[test]
fn get_global_array_block_1() {
    let block_name_a = "1kb";
    let block_name_b = "128_kb";
    let block_name_c = "1_k_b";
    let block_name_d = "100_000_000_kb";

    let r = get_name_from_key("1kb_0");
    let r2 = get_name_from_key("128_kb_0");
    let r3 = get_name_from_key("1_k_b_0");
    let r4 = get_name_from_key("100_000_000_kb_0");

    assert_eq!(r, block_name_a);
    assert_eq!(r2, block_name_b);
    assert_eq!(r3, block_name_c);
    assert_eq!(r4, block_name_d);
}

#[test]
fn explain_reserved_memory_1() {
    let config = default_memory_block_config();
    let (v, c) = explain_memory_block_config(&config);
    println!("{v:#?}");
    println!("blocks: {c}");
}

#[test]
fn explain_reserved_memory_2() {
    let mut config = MemoryBlockConfigMap::new();
    config.insert("1mb", self::config(MB_1, 512 + 64 + 64));
    let (v, c) = explain_memory_block_config(&config);
    println!("{v:#?}");
    println!("blocks: {c}");
}

#[test]
fn explain_reserved_memory_3() {
    let mut config = MemoryBlockConfigMap::new();
    config.insert("1kb", self::config(KB_1, 3000));
    config.insert("2kb", self::config(KB_1 * 2, 800));
    config.insert("4kb", self::config(KB_1 * 4, 500));
    config.insert("8kb", self::config(KB_1 * 4, 500));
    config.insert("128_kb", self::config(KB_1 * 4, 500));
    config.insert("256_kb", self::config(KB_1 * 256, 500));
    config.insert("512_kb", self::config(KB_1 * 512, 500));
    config.insert("1mb", self::config(MB_1, 16));
    config.insert("2mb", self::config(MB_1 * 2, 16));
    config.insert("4mb", self::config(MB_1 * 4, 16));
    config.insert("8mb", self::config(MB_1 * 8, 16));
    config.insert("12_mb", self::config(MB_1 * 12, 12));
    let (v, c) = explain_memory_block_config(&config);
    println!("{v:#?}");
    println!("blocks: {c}");
}
