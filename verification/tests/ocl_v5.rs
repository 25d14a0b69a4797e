use cl::error::{
    OpenclError, GLOBAL_ARRAY_ID_ASSIGNED, INVALID_BUFFER_LEN, INVALID_GLOBAL_ARRAY_ID,
    NO_GLOBAL_VECTORS_TO_ASSIGN,
};
use cl::ocl_v5::{
    check_dequeue_buffer, check_enqueue_buffer, get_global_array_index, GlobalArrayMap, LIST_SIZE,
    TOTAL_GLOBAL_ARRAY,
};

#[test]
fn first_index_is_zero_then_one_past_the_largest() {
    let mut m = GlobalArrayMap::new();
    assert_eq!(get_global_array_index(&m), Ok(0));
    m.insert(0, 10);
    m.insert(7, 3);
    m.insert(2, 3);
    assert_eq!(get_global_array_index(&m), Ok(8));
}

#[test]
fn no_index_past_the_last_array() {
    let mut m = GlobalArrayMap::new();
    m.insert(TOTAL_GLOBAL_ARRAY as u32 + 1, 1);
    assert_eq!(
        get_global_array_index(&m),
        Err(OpenclError::CustomOpenCl(NO_GLOBAL_VECTORS_TO_ASSIGN))
    );
}

#[test]
fn enqueue_checks_in_order() {
    let mut m = GlobalArrayMap::new();
    m.insert(3, 1);
    assert_eq!(
        check_enqueue_buffer(&m, LIST_SIZE + 1, 3),
        Err(OpenclError::CustomOpenCl(INVALID_BUFFER_LEN))
    );
    assert_eq!(
        check_enqueue_buffer(&m, 1, TOTAL_GLOBAL_ARRAY as u32 + 1),
        Err(OpenclError::CustomOpenCl(INVALID_GLOBAL_ARRAY_ID))
    );
    assert_eq!(
        check_enqueue_buffer(&m, 1, 3),
        Err(OpenclError::CustomOpenCl(GLOBAL_ARRAY_ID_ASSIGNED))
    );
    assert_eq!(check_enqueue_buffer(&m, LIST_SIZE, 4), Ok(()));
    assert_eq!(check_dequeue_buffer(TOTAL_GLOBAL_ARRAY as u32), Ok(()));
    assert_eq!(
        check_dequeue_buffer(TOTAL_GLOBAL_ARRAY as u32 + 1),
        Err(OpenclError::CustomOpenCl(INVALID_GLOBAL_ARRAY_ID))
    );
}

#[test]
fn next_index_holds_no_data() {
    let mut m = GlobalArrayMap::new();
    for i in [3u32, 9, 4] {
        m.insert(i, 1);
    }
    let next = get_global_array_index(&m).unwrap();
    assert_eq!(next, 10);
    assert!(m.get(&next).is_none());
}
