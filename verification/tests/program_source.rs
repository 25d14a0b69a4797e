use cl::ocl_v7::{MemoryBlockConfig, MemoryBlockConfigMap};

fn block(capacity: usize, count: usize, negative: bool) -> MemoryBlockConfig {
    MemoryBlockConfig {
        global_array_capacity: capacity,
        global_array_count: count,
        negative_initial_value: negative,
    }
}

#[test]
fn numbered_program_of_two_arrays() {
    let expected = "\n        \n    __global int myNumbers0[16];\n    __global int myNumbers1[16];\n    \n    kernel void vector_add(global int* A, global int* D) {\n\n        // Get the index of the current element\n        int i = get_global_id(0);\n\n        switch (D[i]) {\n        \n            case 0:\n              myNumbers0[i] = A[i];\n              break;\n            case 1:\n              myNumbers1[i] = A[i];\n              break;\n    \n        }\n    \n    }\n    \n    kernel void vector_extract(global int* C, global int* D) {\n\n        // Get the index of the current element\n        int i = get_global_id(0);\n\n        switch (D[i]) {\n        \n            case 0:\n              C[i] = myNumbers0[i];\n              break;\n            case 1:\n              C[i] = myNumbers1[i];\n              break;\n    \n        }\n    \n    }\n    ";
    assert_eq!(cl::ocl_v3::gen_vector_program_source(2, 16), expected);
    assert_eq!(cl::ocl_v5::gen_vector_program_source(2, 16), expected);
}

#[test]
fn numbered_program_without_arrays() {
    let expected = "\n        \n    \n    kernel void vector_add(global int* A, global int* D) {\n\n        // Get the index of the current element\n        int i = get_global_id(0);\n\n        switch (D[i]) {\n        \n    \n        }\n    \n    }\n    \n    kernel void vector_extract(global int* C, global int* D) {\n\n        // Get the index of the current element\n        int i = get_global_id(0);\n\n        switch (D[i]) {\n        \n    \n        }\n    \n    }\n    ";
    assert_eq!(cl::ocl_v3::gen_vector_program_source(0, 8), expected);
}

#[test]
fn producer_over_two_pipes() {
    let expected = "\n    __kernel void producer(\n        __global int* input,\n        \n            __write_only pipe int p0,\n            __write_only pipe int p1\n        ) {\n\n        // Get the index of the current element\n        int i = get_global_id(0);\n        // printf(\"global_id %d %d\",  i, input[i]);\n        \n        switch (i) {\n        \n            case 0:\n              write_pipe(p0, &input[i]);\n              break;\n            \n            case 1:\n              write_pipe(p1, &input[i]);\n              break;\n            \n        }\n    \n    }";
    assert_eq!(cl::ocl_v1::generate_producer_source(2), expected);
    assert_eq!(cl::ocl_v2::generate_producer_source(2), expected);
}

#[test]
fn producer_without_pipes() {
    let expected = "\n    __kernel void producer(\n        __global int* input,\n       \n        ) {\n\n        // Get the index of the current element\n        int i = get_global_id(0);\n        // printf(\"global_id %d %d\",  i, input[i]);\n        \n        switch (i) {\n        \n        }\n    \n    }";
    assert_eq!(cl::ocl_v1::generate_producer_source(0), expected);
}

#[test]
fn consumer_over_one_pipe() {
    let expected = "\n    __kernel void consumer(\n        __global int* output,\n        \n            __read_only pipe int p0\n        ) {\n\n        // Get the index of the current element\n        int i = get_global_id(0);\n        // printf(\"global_id %d %d\",  i, input[i]);\n\n        output[i] = -1;\n        \n        switch (i) {\n        \n            case 0:\n              read_pipe(p0, &output[i]);\n              break;\n            \n        }\n    \n    }";
    assert_eq!(cl::ocl_v1::generate_consumer_source(1), expected);
    assert_eq!(cl::ocl_v2::generate_consumer_source(1), expected);
}

#[test]
fn named_program_of_one_block() {
    let mut m = MemoryBlockConfigMap::new();
    m.insert("1kb", block(4, 2, false));
    assert_eq!(cl::ocl_v7::gen_vector_program_source(&m), "\n    \n    __global int arr_1kb_0[4];\n    __global int arr_1kb_1[4];\n        \n    \n    kernel void vector_add_1kb(global int* A, global int* D) {\n\n        // Get the index of the current element\n        int i = get_global_id(0);\n\n        // Do the operation\n        switch (D[i]) {\n            \n                case 0:\n                  arr_1kb_0[i] = A[i];\n                  break;\n                case 1:\n                  arr_1kb_1[i] = A[i];\n                  break;\n        }\n    }\n    \n    \n    kernel void vector_extract_1kb(global int* C, global int* D) {\n\n        // Get the index of the current element\n        int i = get_global_id(0);\n\n        switch (D[i]) {\n            \n            case 0:\n              C[i] = arr_1kb_0[i];\n              break;\n            case 1:\n              C[i] = arr_1kb_1[i];\n              break;\n        }\n    }\n    \n    ");
}

#[test]
fn named_program_with_negative_initializer() {
    let mut m = MemoryBlockConfigMap::new();
    m.insert("b", block(3, 1, true));
    assert_eq!(cl::ocl_v7::gen_vector_program_source(&m), "\n    \n    __global int arr_b_0[3] = { [0 ... 2] = -1 };\n        \n    \n    kernel void vector_add_b(global int* A, global int* D) {\n\n        // Get the index of the current element\n        int i = get_global_id(0);\n\n        // Do the operation\n        switch (D[i]) {\n            \n                case 0:\n                  arr_b_0[i] = A[i];\n                  break;\n        }\n    }\n    \n    \n    kernel void vector_extract_b(global int* C, global int* D) {\n\n        // Get the index of the current element\n        int i = get_global_id(0);\n\n        switch (D[i]) {\n            \n            case 0:\n              C[i] = arr_b_0[i];\n              break;\n        }\n    }\n    \n    ");
}

#[test]
fn named_program_of_two_blocks_in_order() {
    let mut m = MemoryBlockConfigMap::new();
    m.insert("1kb", block(4, 2, false));
    m.insert("b", block(3, 1, true));
    assert_eq!(cl::ocl_v7::gen_vector_program_source(&m), "\n    \n    __global int arr_1kb_0[4];\n    __global int arr_1kb_1[4];\n        \n    __global int arr_b_0[3] = { [0 ... 2] = -1 };\n        \n    \n    kernel void vector_add_1kb(global int* A, global int* D) {\n\n        // Get the index of the current element\n        int i = get_global_id(0);\n\n        // Do the operation\n        switch (D[i]) {\n            \n                case 0:\n                  arr_1kb_0[i] = A[i];\n                  break;\n                case 1:\n                  arr_1kb_1[i] = A[i];\n                  break;\n        }\n    }\n    \n    kernel void vector_add_b(global int* A, global int* D) {\n\n        // Get the index of the current element\n        int i = get_global_id(0);\n\n        // Do the operation\n        switch (D[i]) {\n            \n                case 0:\n                  arr_b_0[i] = A[i];\n                  break;\n        }\n    }\n    \n    \n    kernel void vector_extract_1kb(global int* C, global int* D) {\n\n        // Get the index of the current element\n        int i = get_global_id(0);\n\n        switch (D[i]) {\n            \n            case 0:\n              C[i] = arr_1kb_0[i];\n              break;\n            case 1:\n              C[i] = arr_1kb_1[i];\n              break;\n        }\n    }\n    \n    kernel void vector_extract_b(global int* C, global int* D) {\n\n        // Get the index of the current element\n        int i = get_global_id(0);\n\n        switch (D[i]) {\n            \n            case 0:\n              C[i] = arr_b_0[i];\n              break;\n        }\n    }\n    \n    ");
}

#[test]
fn block_program_matches_named_program() {
    let v = vec![cl::ocl_v6::GlobalArrayBlockConfig {
        name: "1kb".to_string(),
        global_array_capacity: 4,
        global_array_count: 2,
        negative_initial_value: false,
    }];
    assert_eq!(cl::ocl_v6::gen_vector_program_source(v), "\n    \n    __global int arr_1kb_0[4];\n    __global int arr_1kb_1[4];\n        \n    \n    kernel void vector_add_1kb(global int* A, global int* D) {\n\n        // Get the index of the current element\n        int i = get_global_id(0);\n\n        // Do the operation\n        switch (D[i]) {\n            \n                case 0:\n                  arr_1kb_0[i] = A[i];\n                  break;\n                case 1:\n                  arr_1kb_1[i] = A[i];\n                  break;\n        }\n    }\n    \n    \n    kernel void vector_extract_1kb(global int* C, global int* D) {\n\n        // Get the index of the current element\n        int i = get_global_id(0);\n\n        switch (D[i]) {\n            \n            case 0:\n              C[i] = arr_1kb_0[i];\n              break;\n            case 1:\n              C[i] = arr_1kb_1[i];\n              break;\n        }\n    }\n    \n    ");
}

#[test]
fn named_program_with_empty_negative_block() {
    let mut m = MemoryBlockConfigMap::new();
    m.insert("z", block(0, 0, true));
    assert_eq!(cl::ocl_v7::gen_vector_program_source(&m), "\n    \n        \n    \n    kernel void vector_add_z(global int* A, global int* D) {\n\n        // Get the index of the current element\n        int i = get_global_id(0);\n\n        // Do the operation\n        switch (D[i]) {\n            \n        }\n    }\n    \n    \n    kernel void vector_extract_z(global int* C, global int* D) {\n\n        // Get the index of the current element\n        int i = get_global_id(0);\n\n        switch (D[i]) {\n            \n        }\n    }\n    \n    ");
}
