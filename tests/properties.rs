use hdiff::{
    MemData, Processor, ProcessorDataInput, ProcessorDataOutput, ProcessorError, CHUNK_SIZE,
    HASH_SIZE,
};

const DIGEST_1234: [u8; 32] = [
    159, 100, 167, 71, 225, 185, 127, 19, 31, 171, 182, 180, 71, 41, 108, 155, 111, 2, 1, 231,
    159, 179, 197, 53, 110, 108, 119, 232, 155, 106, 128, 106,
];

fn signature(chunk_size: usize, file: &[u8]) -> Vec<u8> {
    let mut input = MemData::new_input(chunk_size, file);
    let mut output = MemData::new_output();
    let mut proc = Processor::new(&mut input, &mut output);
    assert!(proc.process_signature().is_ok());
    output.data().clone()
}

fn delta(chunk_size: usize, sig: &[u8], file: &[u8]) -> Vec<u8> {
    let mut input = MemData::new_input(chunk_size, file);
    let mut sig_input = MemData::new_input(HASH_SIZE, sig);
    let mut output = MemData::new_output();
    let mut proc = Processor::new(&mut input, &mut output);
    assert!(proc.process_delta(&mut sig_input).is_ok());
    output.data().clone()
}

#[test]
fn digest_golden_vector() {
    assert_eq!(signature(4, &[1, 2, 3, 4]), DIGEST_1234.to_vec());
}

#[test]
fn signature_is_one_digest_per_chunk() {
    let file: Vec<u8> = (0..23u8).collect();
    let sig = signature(5, &file);
    assert_eq!(sig.len(), 5 * HASH_SIZE);
    assert_eq!(&sig[0..HASH_SIZE], &signature(5, &file[0..5])[..]);
    assert_eq!(&sig[4 * HASH_SIZE..], &signature(5, &file[20..])[..]);
}

#[test]
fn signature_is_deterministic() {
    let file: Vec<u8> = (0..100u8).collect();
    assert_eq!(signature(7, &file), signature(7, &file));
}

#[test]
fn round_trip_gives_only_same_records() {
    let file: Vec<u8> = (0..50u8).map(|b| b.wrapping_mul(37)).collect();
    let sig = signature(8, &file);
    assert_eq!(delta(8, &sig, &file), vec![0u8; 7]);
}

#[test]
fn round_trip_with_default_chunk_size() {
    let file: Vec<u8> = (0..3000u32).map(|b| (b % 251) as u8).collect();
    let sig = signature(CHUNK_SIZE, &file);
    assert_eq!(sig.len(), 3 * HASH_SIZE);
    assert_eq!(delta(CHUNK_SIZE, &sig, &file), vec![0u8; 3]);
}

#[test]
fn insertion_is_detected() {
    let old = [9, 9, 9, 9, 9, 9, 9, 9];
    let new = [9, 9, 9, 9, 7, 7, 7, 7, 9, 9, 9, 9];
    let sig = signature(4, &old);
    assert_eq!(delta(4, &sig, &new), vec![0, 2, 7, 7, 7, 7, 0]);
}

#[test]
fn removal_is_detected() {
    let old = [9, 9, 9, 9, 7, 7, 7, 7, 9, 9, 9, 9];
    let new = [9, 9, 9, 9, 9, 9, 9, 9];
    let sig = signature(4, &old);
    assert_eq!(delta(4, &sig, &new), vec![0, 3, 0]);
}

#[test]
fn tail_growth_adds_literals() {
    let old = [1, 2, 3, 4, 5, 6, 7, 8];
    let new = [1, 2, 3, 4, 5, 6, 7, 8, 10, 11, 12, 13, 14, 15];
    let sig = signature(4, &old);
    assert_eq!(
        delta(4, &sig, &new),
        vec![0, 0, 1, 10, 11, 12, 13, 1, 14, 15]
    );
}

#[test]
fn exhausted_signature_gives_only_literals() {
    let sig = signature(4, &[50, 51, 52, 53]);
    let new = [1, 1, 1, 1, 2, 2, 2, 2, 3, 3];
    assert_eq!(
        delta(4, &sig, &new),
        vec![1, 1, 1, 1, 1, 1, 2, 2, 2, 2, 1, 3, 3]
    );
}

#[test]
fn empty_signature_gives_only_literals() {
    assert_eq!(delta(3, &[], &[4, 5, 6, 7]), vec![1, 4, 5, 6, 1, 7]);
}

#[test]
fn empty_new_file_gives_empty_delta() {
    let sig = signature(4, &[1, 2, 3, 4]);
    assert_eq!(delta(4, &sig, &[]), Vec::<u8>::new());
}

#[test]
fn partial_final_chunk_is_hashed_like_others() {
    let sig = signature(4, &[1, 2, 3, 4, 5, 6]);
    assert_eq!(&sig[HASH_SIZE..], &signature(4, &[5, 6])[..]);
    assert_eq!(delta(4, &sig, &[1, 2, 3, 4, 5, 7]), vec![0, 1, 5, 7]);
}

#[test]
fn zero_chunk_size_frames_nothing() {
    assert_eq!(signature(0, &[1, 2, 3]), Vec::<u8>::new());
}

#[test]
fn rewind_returns_the_same_chunk() {
    let mut src = MemData::new_input(3, &[1, 2, 3, 4, 5, 6, 7]);
    assert_eq!(src.get_next_data(), vec![1, 2, 3]);
    assert_eq!(src.get_next_data(), vec![4, 5, 6]);
    assert!(src.move_back_last_read());
    assert_eq!(src.get_next_data(), vec![4, 5, 6]);
    assert_eq!(src.get_next_data(), vec![7]);
    assert!(src.move_back_last_read());
    assert_eq!(src.get_next_data(), vec![7]);
    assert_eq!(src.get_next_data(), Vec::<u8>::new());
    assert_eq!(src.get_next_data(), Vec::<u8>::new());
}

#[test]
fn sink_appends() {
    let mut out = MemData::new_output();
    assert!(out.write_data(&[1, 2]));
    assert!(out.write_data(&[]));
    assert!(out.write_data(&[3]));
    assert_eq!(*out.data(), vec![1, 2, 3]);
}

#[test]
fn error_descriptions() {
    assert_eq!(ProcessorError::FileWrite.to_string(), "File write error");
    assert_eq!(
        ProcessorError::FileSeek.to_string(),
        "Unable to change position in a file"
    );
}
