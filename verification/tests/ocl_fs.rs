use cl::error::{OpenclError, INVALID_BUFFER_LEN};
use cl::ocl_fs_3::{FileError, OclFs};
use cl::ocl_v5::GlobalArrayMap;
use cl::ocl_v7::{default_memory_block, MemoryBlock, MemoryBlockConfig, MemoryBlockConfigMap};

#[test]
fn created_file_opens_with_its_key() {
    let mut fs = OclFs::new();
    let mut block = default_memory_block();
    let f = fs.create_with_len("/a.txt", 100, &mut block).unwrap();
    assert_eq!(f.key(), "1kb_0");
    let g = fs.open("/a.txt", &block).unwrap();
    assert_eq!(g.key(), f.key());
    assert_eq!(fs.open("/b.txt", &block).map(|_| ()), Err(FileError::NotFound));
    let copy = cl::ocl_fs_3::ocl_cache_map(&fs);
    assert_eq!(copy.len(), 1);
}

#[test]
fn create_fails_when_no_array_is_free() {
    let mut c = MemoryBlockConfigMap::new();
    c.insert(
        "1kb",
        MemoryBlockConfig { global_array_capacity: 1024, global_array_count: 1, negative_initial_value: false },
    );
    let mut block = MemoryBlock::new(c);
    let mut fs = OclFs::new();
    assert!(fs.create_with_len("/a", 1, &mut block).is_ok());
    assert_eq!(
        fs.create_with_len("/b", 1, &mut block).map(|_| ()),
        Err(FileError::OpenCl(OpenclError::CustomOpenCl(INVALID_BUFFER_LEN)))
    );
    assert!(fs.open("/b", &block).is_err());
}

#[test]
fn key_layer_wraps_the_same_files() {
    let mut fs = cl::ocl_fs_2::OclFs::new();
    let mut block = default_memory_block();
    let f = fs.create_with_len("/k", 2000, &mut block).unwrap();
    assert_eq!(f.global_array_key(), "2kb_0");
    assert_eq!(fs.open("/k", &block).unwrap().global_array_key(), "2kb_0");
}

#[test]
fn index_files_get_consecutive_arrays() {
    let mut fs = cl::ocl_fs::OclFs::new();
    let mut arrays = GlobalArrayMap::new();
    let a = fs.create("/a", &mut arrays).unwrap();
    let b = fs.create("/b", &mut arrays).unwrap();
    let a2 = fs.create("/a", &mut arrays).unwrap();
    assert_eq!(a.global_array_index(), 0);
    assert_eq!(b.global_array_index(), 1);
    assert_eq!(a2.global_array_index(), 0);
    assert_eq!(fs.open("/b", &arrays).unwrap().global_array_index(), 1);
    assert!(fs.open("/c", &arrays).is_err());
}

#[test]
fn copy_into_and_written_len() {
    let mut buf = [9u8; 4];
    assert_eq!(cl::ocl_fs_3::copy_into(&mut buf, &[1, 2]), 2);
    assert_eq!(buf, [1, 2, 9, 9]);
    let mut small = [0u8; 1];
    assert_eq!(cl::ocl_fs_3::copy_into(&mut small, &[5, 6, 7]), 3);
    assert_eq!(small, [5]);
    assert_eq!(cl::ocl_fs_3::written_len(1024, 10), 10);
    assert_eq!(cl::ocl_fs_3::written_len(4, 10), 0);
}

#[test]
fn file_layouts() {
    let a = cl::ocl_fs_config::config_a();
    let b = cl::ocl_fs_config::config_b();
    assert_eq!(a.len(), 10);
    assert_eq!(a[0].name, "1kb");
    assert_eq!(a[0].global_array_count, 9000);
    assert_eq!(b.len(), 1);
    assert_eq!(b[0].name, "50mb");
    assert_eq!(b[0].global_array_capacity, 52428800);
}

#[test]
fn to_array_widens_and_pads() {
    let arr = cl::to_array(&[1, 255]);
    assert_eq!(arr[0], 1);
    assert_eq!(arr[1], 255);
    assert!(arr[2..].iter().all(|x| *x == 0));
}
