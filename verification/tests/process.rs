use cl::process::chunk_lengths;

const KB_1: usize = 1024;

#[test]
fn prepare_buffer_1_kb() {
    const BUFFER_LEN: usize = 2130;
    let b: [u8; BUFFER_LEN] = [0; BUFFER_LEN];

    let lengths = chunk_lengths(b.as_slice().len(), KB_1);
    println!("chunks {}", lengths.len());
    for l in lengths.iter() {
        println!("chunk: {l}");
    }
    assert_eq!(1, 1);
}

#[test]
fn buffer_concat() {
    const SIZE: usize = 5;
    let a: [u8; SIZE] = [0; SIZE];
    let b: [u8; SIZE] = [1; SIZE];
    let c: [u8; SIZE] = [2; SIZE];

    let r = [a, b, c].concat();
    println!("concat {:?}", r.as_slice());

    let ch = r.chunks(SIZE);

    let r: Vec<_> = ch.into_iter().flatten().collect();
    println!("iter flatten {:?}", r);
    println!("{}", r.len());

    assert_eq!(1, 1);
}

#[test]
fn assemble_buffer_1_kb_from_2000_bytes() {
    const BUFFER_LEN: usize = 2130;
    let b: [u8; BUFFER_LEN] = [0; BUFFER_LEN];

    let c = b.chunks(KB_1);

    let r: Vec<_> = c.into_iter().flatten().collect();
    println!("{}", r.len());

    assert_eq!(1, 1);
}

#[test]
fn buffer_chunk() {
    const SIZE: usize = 5;
    let a: [u8; SIZE] = [0; SIZE];

    let c_a = a.chunks(SIZE);
    let c_b = a.chunks(2);
    let c_c = a.chunks(1);

    assert_eq!(1, c_a.len());
    assert_eq!(3, c_b.len());
    assert_eq!(5, c_c.len());
}

#[test]
fn chunk_lengths_of_2130_bytes() {
    assert_eq!(chunk_lengths(2130, KB_1), vec![1024, 1024, 82]);
}

#[test]
fn chunk_lengths_match_slice_chunks() {
    let a = [0u8; 5];
    for size in 1..7usize {
        let expected: Vec<usize> = a.chunks(size).map(|c| c.len()).collect();
        assert_eq!(chunk_lengths(a.len(), size), expected);
    }
}

#[test]
fn chunk_lengths_of_empty_buffer() {
    assert_eq!(chunk_lengths(0, KB_1), Vec::<usize>::new());
}

#[test]
fn chunk_lengths_of_exact_multiple() {
    assert_eq!(chunk_lengths(2048, KB_1), vec![1024, 1024]);
}
