use cl::ocl_v2::{chunk_inputs, decode_outputs, next_item, BlockConfig, PipeBlockState, LIST_SIZE};

fn config() -> BlockConfig {
    BlockConfig { buffer_size: LIST_SIZE, pipes: 4, pipe_max_packets: 8 }
}

#[test]
fn chunk_inputs_lay_out_each_chunk() {
    let buf: Vec<u8> = (0..2100u32).map(|i| (i % 200) as u8).collect();
    let inputs = chunk_inputs(&buf);
    assert_eq!(inputs.len(), 3);
    assert!(inputs.iter().all(|v| v.len() == LIST_SIZE));
    assert_eq!(inputs[0][0], 0);
    assert_eq!(inputs[1][0], (1024 % 200) as i32);
    assert_eq!(inputs[2][51], ((2048 + 51) % 200) as i32);
    assert_eq!(inputs[2][52], -1);
}

#[test]
fn pipe_round_trip_gives_the_buffer_back() {
    let buf: Vec<u8> = (0..3000u32).map(|i| (i % 251) as u8).collect();
    let mut state = PipeBlockState::new(config());
    let inputs = state.enqueue_inputs(&buf);
    assert_eq!(state.saved_index, 3);
    assert_eq!(decode_outputs(&inputs), buf);
    assert_eq!(state.take_saved(), 3);
    assert_eq!(state.saved_index, 0);
    assert_eq!(state.config, config());
}

#[test]
fn empty_buffer_pushes_nothing() {
    let mut state = PipeBlockState::new(config());
    let inputs = state.enqueue_inputs(&[]);
    assert!(inputs.is_empty());
    assert_eq!(state.saved_index, 0);
    assert_eq!(decode_outputs(&inputs), Vec::<u8>::new());
}

#[test]
fn drained_stream_ends_on_empty_output() {
    assert_eq!(next_item(vec![]), None);
    assert_eq!(next_item(vec![1, 2]), Some(vec![1, 2]));
}

#[test]
fn decode_outputs_skips_negative_elements() {
    let outputs = vec![vec![104, -1, 105], vec![-1], vec![33, -7]];
    assert_eq!(decode_outputs(&outputs), b"hi!".to_vec());
}
