use cl::ocl_v6::{gen_vector_program_source, GlobalArrayBlockConfig, KB_1, MB_1};

#[test]
fn ocl_v6_generate_program_source() {
    let v: Vec<GlobalArrayBlockConfig> = vec![
        GlobalArrayBlockConfig {
            name: "1kb".to_string(),
            global_array_capacity: KB_1,
            global_array_count: 3,
            negative_initial_value: false,
        },
        GlobalArrayBlockConfig {
            name: "1mb".to_string(),
            global_array_capacity: MB_1,
            global_array_count: 2,
            negative_initial_value: false,
        },
    ];
    let result = gen_vector_program_source(v);
    println!("{result}");
    assert_ne!(result.len(), 0);
}
