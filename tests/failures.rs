use hdiff::{MemData, Processor, ProcessorDataInput, ProcessorDataOutput, ProcessorError, HASH_SIZE};

const DIGEST_1234: [u8; 32] = [
    159, 100, 167, 71, 225, 185, 127, 19, 31, 171, 182, 180, 71, 41, 108, 155, 111, 2, 1, 231,
    159, 179, 197, 53, 110, 108, 119, 232, 155, 106, 128, 106,
];

#[test]
fn signature_reports_write_failure() {
    let mut input = MemData::new_input(4, &[1, 2, 3, 4]);
    let mut output = MemData::new_bounded_output(31);
    let mut proc = Processor::new(&mut input, &mut output);
    assert!(matches!(proc.process_signature(), Err(ProcessorError::FileWrite)));
    assert_eq!(*output.data(), Vec::<u8>::new());
}

#[test]
fn signature_fits_exactly_in_bounded_sink() {
    let mut input = MemData::new_input(4, &[1, 2, 3, 4]);
    let mut output = MemData::new_bounded_output(32);
    let mut proc = Processor::new(&mut input, &mut output);
    assert!(proc.process_signature().is_ok());
    assert_eq!(*output.data(), DIGEST_1234.to_vec());
}

#[test]
fn delta_reports_write_failure() {
    let mut input = MemData::new_input(4, &[1, 2, 3, 4, 5, 6, 7, 8]);
    let mut sig = MemData::new_input(HASH_SIZE, &DIGEST_1234);
    let mut output = MemData::new_bounded_output(1);
    let mut proc = Processor::new(&mut input, &mut output);
    assert!(matches!(proc.process_delta(&mut sig), Err(ProcessorError::FileWrite)));
    assert_eq!(*output.data(), vec![0]);
}

#[test]
fn delta_after_exhausted_signature_reports_write_failure() {
    let mut input = MemData::new_input(4, &[5, 6, 7, 8, 5, 6]);
    let mut sig = MemData::new_input(HASH_SIZE, &[]);
    let mut output = MemData::new_bounded_output(6);
    let mut proc = Processor::new(&mut input, &mut output);
    assert!(matches!(proc.process_delta(&mut sig), Err(ProcessorError::FileWrite)));
    assert_eq!(*output.data(), vec![1, 5, 6, 7, 8, 1]);
}

#[test]
fn delta_reports_seek_failure() {
    let mut input = MemData::new_forward_input(4, &[5, 6, 7, 8, 9, 9, 9, 9]);
    let mut sig = MemData::new_forward_input(HASH_SIZE, &[DIGEST_1234, DIGEST_1234].concat());
    let mut output = MemData::new_output();
    let mut proc = Processor::new(&mut input, &mut output);
    assert!(matches!(proc.process_delta(&mut sig), Err(ProcessorError::FileSeek)));
    assert_eq!(*output.data(), vec![1, 5, 6, 7, 8]);
}

#[test]
fn matching_chunks_need_no_seek() {
    let mut input = MemData::new_forward_input(4, &[1, 2, 3, 4]);
    let mut sig = MemData::new_forward_input(HASH_SIZE, &DIGEST_1234);
    let mut output = MemData::new_output();
    let mut proc = Processor::new(&mut input, &mut output);
    assert!(proc.process_delta(&mut sig).is_ok());
    assert_eq!(*output.data(), vec![0]);
}

#[test]
fn forward_input_cannot_step_back() {
    let mut src = MemData::new_forward_input(2, &[1, 2, 3]);
    assert_eq!(src.get_next_data(), vec![1, 2]);
    assert!(!src.move_back_last_read());
    assert_eq!(src.get_next_data(), vec![3]);
}

#[test]
fn bounded_sink_keeps_bytes_on_refusal() {
    let mut out = MemData::new_bounded_output(3);
    assert!(out.write_data(&[1, 2]));
    assert!(!out.write_data(&[3, 4]));
    assert!(out.write_data(&[3]));
    assert!(!out.write_data(&[4]));
    assert!(out.write_data(&[]));
    assert_eq!(*out.data(), vec![1, 2, 3]);
}
