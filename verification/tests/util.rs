use niiebla::align_to_boundary;
use niiebla::{ReadEx, StringEx, WriteEx};
use niiebla::{SeekFrom, Stream, StreamError};

#[test]
fn align_to_boundary_unaligned_value() {
    assert_eq!(align_to_boundary(117, 64), 128);
}

#[test]
fn align_to_boundary_aligned_value() {
    assert_eq!(align_to_boundary(100, 50), 100);
}

#[test]
fn align_to_boundary_same_value() {
    assert_eq!(align_to_boundary(73, 73), 73);
}

#[test]
fn align_to_boundary_zero() {
    assert_eq!(align_to_boundary(0, 0), 0);
}

#[test]
fn align_to_boundary_one_below_and_one_above() {
    assert_eq!(align_to_boundary(63, 64), 64);
    assert_eq!(align_to_boundary(65, 64), 128);
    assert_eq!(align_to_boundary(1, 1), 1);
}

#[test]
fn read_bool_true() {
    let mut buffer = Stream::fixed(vec![1, 255]);
    assert!(buffer.read_bool().unwrap())
}

#[test]
fn read_bool_false() {
    let mut buffer = Stream::fixed(vec![0, 255]);
    assert!(!buffer.read_bool().unwrap())
}

#[test]
fn read_bool_invalid() {
    let mut buffer = Stream::fixed(vec![77, 255]);
    assert!(buffer.read_bool().is_err())
}

#[test]
fn read_bool_errors_are_told_apart() {
    let mut buffer = Stream::new(vec![2]);
    assert_eq!(buffer.read_bool(), Err(StreamError::InvalidData));
    assert_eq!(buffer.read_bool(), Err(StreamError::UnexpectedEof));
}

const DUMMY_TEXT_ASCII: [u8; 3] = [72, 105, 33];
const DUMMY_TEXT_STR: &str = "Hi!";

#[test]
fn string_from_null_terminated_bytes_no_null_char() {
    assert_eq!(
        String::from_null_terminated_bytes(&DUMMY_TEXT_ASCII).unwrap(),
        DUMMY_TEXT_STR
    );
}

#[test]
fn string_from_null_terminated_bytes_with_null_chars() {
    let mut buffer = Vec::from(DUMMY_TEXT_ASCII);
    buffer.append(&mut vec![0, 0, 0]);

    assert_eq!(
        String::from_null_terminated_bytes(&DUMMY_TEXT_ASCII).unwrap(),
        DUMMY_TEXT_STR
    );
    assert_eq!(
        String::from_null_terminated_bytes(&buffer).unwrap(),
        DUMMY_TEXT_STR
    );
}

#[test]
fn string_from_null_terminated_bytes_stops_at_the_first_null() {
    assert_eq!(
        String::from_null_terminated_bytes(&[72, 0, 105, 0]).unwrap(),
        "H"
    );
    assert_eq!(String::from_null_terminated_bytes(&[0, 72]).unwrap(), "");
}

#[test]
fn string_from_null_terminated_bytes_refuses_what_is_not_utf8() {
    assert!(String::from_null_terminated_bytes(&[0xFF, 0xFE, 0]).is_err());
    // What follows the terminator is not looked at.
    assert_eq!(
        String::from_null_terminated_bytes(&[72, 0, 0xFF]).unwrap(),
        "H"
    );
    assert_eq!(
        String::from_null_terminated_bytes(&[0xC3, 0xA9]).unwrap(),
        "é"
    );
}

#[test]
fn write_zeroed_three_times() {
    let mut buffer = vec![1, 2, 3];
    buffer.write_zeroed(3).unwrap();

    assert_eq!(buffer, [1, 2, 3, 0, 0, 0]);
}

#[test]
fn write_zeroed_zero_times() {
    let mut buffer = vec![1, 2, 3];
    buffer.write_zeroed(0).unwrap();

    assert_eq!(buffer, [1, 2, 3]);
}

#[test]
fn write_bytes_padded_same_size() {
    let mut buffer = vec![1, 2, 3];
    buffer.write_bytes_padded(&[4, 5, 6], 3).unwrap();

    assert_eq!(buffer, [1, 2, 3, 4, 5, 6]);
}

#[test]
fn write_bytes_padded_different_size() {
    let mut buffer = vec![1, 2];
    buffer.write_bytes_padded(&[3, 4], 6).unwrap();

    assert_eq!(buffer, [1, 2, 3, 4, 0, 0, 0, 0]);
}

#[test]
fn write_bool_true() {
    let mut buffer = vec![1, 2];
    buffer.write_bool(true).unwrap();

    assert_eq!(buffer, [1, 2, 1]);
}

#[test]
fn write_bool_false() {
    let mut buffer = vec![1, 2];
    buffer.write_bool(false).unwrap();

    assert_eq!(buffer, [1, 2, 0]);
}

#[test]
fn write_ex_on_a_stream_overwrites_and_grows() {
    let mut stream = Stream::new(vec![1, 2, 3]);
    stream.seek(SeekFrom::Start(2)).unwrap();
    stream.write_bytes_padded(&[9], 3).unwrap();
    stream.write_bool(true).unwrap();
    stream.write_zeroed(1).unwrap();

    assert_eq!(stream.stream_position(), 7);
    assert_eq!(stream.into_inner(), [1, 2, 9, 0, 0, 1, 0]);
}

#[test]
fn stream_write_beyond_the_end_fills_with_zeros() {
    let mut stream = Stream::new(vec![7]);
    stream.seek(SeekFrom::Start(3)).unwrap();
    assert_eq!(stream.write(&[8, 9]), Ok(2));
    assert_eq!(stream.into_inner(), [7, 0, 0, 8, 9]);
}

#[test]
fn stream_of_fixed_size_takes_what_fits() {
    let mut stream = Stream::fixed(vec![1, 2, 3]);
    stream.seek(SeekFrom::Start(2)).unwrap();
    assert_eq!(stream.write(&[8, 9]), Ok(1));
    assert_eq!(stream.write_all(&[5]), Err(StreamError::WriteZero));
    assert_eq!(stream.into_inner(), [1, 2, 8]);
}

#[test]
fn stream_seek_refuses_negative_positions() {
    let mut stream = Stream::new(vec![1, 2, 3]);
    assert_eq!(stream.seek(SeekFrom::End(-1)), Ok(2));
    assert_eq!(stream.seek(SeekFrom::Current(-3)), Err(StreamError::InvalidSeek));
    assert_eq!(stream.stream_position(), 2);
    assert_eq!(stream.seek(SeekFrom::Current(i64::MIN)), Err(StreamError::InvalidSeek));
    assert_eq!(stream.seek(SeekFrom::End(5)), Ok(8));
    assert_eq!(stream.read_u8(), Err(StreamError::UnexpectedEof));
    assert_eq!(stream.stream_position(), 3);
}

#[test]
fn stream_reads_integers_in_both_byte_orders() {
    let mut stream = Stream::new(vec![
        0x12, 0x34, 0x01, 0x02, 0x03, 0x04, 0x01, 0x02, 0x03, 0x04, 1, 2, 3, 4, 5, 6, 7, 8,
    ]);
    assert_eq!(stream.read_u16_be(), Ok(0x1234));
    assert_eq!(stream.read_u32_be(), Ok(0x0102_0304));
    assert_eq!(stream.read_u32_le(), Ok(0x0403_0201));
    assert_eq!(stream.read_u64_be(), Ok(0x0102_0304_0506_0708));
    assert_eq!(stream.read_u16_be(), Err(StreamError::UnexpectedEof));
}

#[test]
fn stream_truncate_drops_the_tail() {
    let mut stream = Stream::new(vec![1, 2, 3, 4]);
    stream.truncate(9);
    assert_eq!(stream.len(), 4);
    stream.truncate(2);
    assert_eq!(stream.into_inner(), [1, 2]);
}
