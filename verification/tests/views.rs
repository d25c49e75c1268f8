use niiebla::{RecallView, SeekFrom, Stream, StreamError, StreamPin, StreamView};

fn ten() -> Vec<u8> {
    vec![1, 2, 3, 4, 5, 6, 7, 8, 9, 10]
}

#[test]
fn read_read() {
    let mut buffer = Stream::new(ten());
    buffer.seek(SeekFrom::Current(4)).unwrap();

    let mut view = StreamView::new(buffer, 20).unwrap();

    let mut data = vec![0; 5];
    assert_eq!(view.read(&mut data).unwrap(), 5);

    assert_eq!(data, [5, 6, 7, 8, 9]);
}

#[test]
fn read_insufficient_len() {
    let mut buffer = Stream::new(ten());
    buffer.seek(SeekFrom::Current(4)).unwrap();

    let mut view = StreamView::new(buffer, 2).unwrap();

    let mut data = vec![0; 5];
    let bytes_read = view.read(&mut data).unwrap();

    assert_eq!(bytes_read, 2);
    assert_eq!(data, [5, 6, 0, 0, 0]);
}

#[test]
fn read_insufficient_buffer_size() {
    let buffer = Stream::new(vec![1, 2, 3]);
    let mut view = StreamView::new(buffer, 100).unwrap();

    let mut data = vec![0; 5];
    let bytes_read = view.read(&mut data).unwrap();

    assert_eq!(bytes_read, 3);
    assert_eq!(data, [1, 2, 3, 0, 0]);
}

#[test]
fn seek_end() {
    let buffer = Stream::new(ten());

    let mut view = StreamView::new(buffer, 5).unwrap();

    let new_position = view.seek(SeekFrom::End(-1)).unwrap();
    assert_eq!(new_position, 3);

    let mut byte = vec![0; 1];
    assert_eq!(view.read(&mut byte).unwrap(), 1);
    assert_eq!(byte[0], 4);
}

#[test]
fn seek_end_out_of_bounds() {
    let buffer = Stream::new(ten());

    let mut view = StreamView::new(buffer, 3).unwrap();
    view.seek(SeekFrom::End(200)).unwrap();

    let mut data = vec![0; 5];
    let bytes_read = view.read(&mut data).unwrap();

    assert_eq!(bytes_read, 0);
    assert_eq!(data, [0, 0, 0, 0, 0]);
}

#[test]
fn seek_end_negative_offset_outside_buffer() {
    let buffer = Stream::new(ten());

    let mut view = StreamView::new(buffer, 3).unwrap();
    assert!(view.seek(SeekFrom::End(-200)).is_err());
}

#[test]
fn seek_end_negative_offset_outside_view() {
    let mut buffer = Stream::new(ten());
    buffer.seek(SeekFrom::Current(2)).unwrap();

    let mut view = StreamView::new(buffer, 3).unwrap();
    assert!(view.seek(SeekFrom::Current(-3)).is_err());
}

#[test]
fn seek_start() {
    let buffer = Stream::new(ten());

    let mut view = StreamView::new(buffer, 3).unwrap();
    let new_position = view.seek(SeekFrom::Start(1)).unwrap();
    assert_eq!(new_position, 1);

    let mut data = vec![0; 2];
    assert_eq!(view.read(&mut data).unwrap(), 2);

    assert_eq!(data, [2, 3]);
}

#[test]
fn seek_start_out_of_bounds() {
    let buffer = Stream::new(ten());

    let mut view = StreamView::new(buffer, 3).unwrap();
    view.seek(SeekFrom::Start(200)).unwrap();

    let mut data = vec![0; 5];
    let bytes_read = view.read(&mut data).unwrap();

    assert_eq!(bytes_read, 0);
    assert_eq!(data, [0, 0, 0, 0, 0]);
}

#[test]
fn seek_refused_leaves_the_view_where_it_was() {
    let mut buffer = Stream::new(ten());
    buffer.seek(SeekFrom::Start(4)).unwrap();

    let mut view = StreamView::new(buffer, 3).unwrap();
    assert_eq!(view.seek(SeekFrom::Start(2)), Ok(2));
    assert_eq!(view.seek(SeekFrom::Current(-3)), Err(StreamError::InvalidSeek));
    assert_eq!(view.seek(SeekFrom::Start(u64::MAX)), Err(StreamError::InvalidSeek));
    assert_eq!(view.stream_position(), 2);
    assert_eq!(view.len(), 3);
    assert_eq!(view.into_inner().stream_position(), 6);
}

#[test]
fn write() {
    let mut buffer = Stream::fixed(vec![1, 2, 3, 4, 5]);
    buffer.seek(SeekFrom::Current(1)).unwrap();

    let mut view = StreamView::new(buffer, 3).unwrap();

    assert_eq!(view.write(&[20, 30]).unwrap(), 2);

    assert_eq!(view.into_inner().into_inner(), [1, 20, 30, 4, 5]);
}

#[test]
fn write_insufficient_len() {
    let buffer = Stream::fixed(vec![1, 2, 3, 4, 5]);

    let mut view = StreamView::new(buffer, 1).unwrap();

    let bytes_written = view.write(&[10, 20, 30]).unwrap();

    assert_eq!(bytes_written, 1);
    assert_eq!(view.into_inner().into_inner(), [10, 2, 3, 4, 5]);
}

#[test]
fn write_insufficient_buffer_size() {
    let buffer = Stream::fixed(vec![1, 2]);

    let mut view = StreamView::new(buffer, 100).unwrap();

    let bytes_written = view.write(&[10, 20, 30, 40, 50]).unwrap();

    assert_eq!(bytes_written, 2);
    assert_eq!(view.into_inner().into_inner(), [10, 20]);
}

#[test]
fn write_through_a_view_grows_a_stream_that_grows() {
    let buffer = Stream::new(vec![1, 2]);

    let mut view = StreamView::new(buffer, 4).unwrap();

    assert_eq!(view.write(&[10, 20, 30, 40, 50]).unwrap(), 4);
    assert_eq!(view.write(&[60]).unwrap(), 0);
    assert_eq!(view.into_inner().into_inner(), [10, 20, 30, 40]);
}

#[test]
fn recall_view_read() {
    let buffer = Stream::new(ten());

    let mut buffer = {
        let mut recall_view = RecallView::new(buffer, 5).unwrap();

        let mut data = vec![0; 5];
        assert_eq!(recall_view.read(&mut data).unwrap(), 5);
        recall_view.into_inner().unwrap()
    };

    assert_eq!(buffer.read_u8().unwrap(), 1);
}

#[test]
fn into_inner() {
    let buffer = Stream::new(ten());
    let recall_view = RecallView::new(buffer, 5).unwrap();
    let _buffer = recall_view.into_inner().unwrap();
}

#[test]
fn recall_view_without_reset_keeps_the_position() {
    let mut buffer = Stream::new(ten());
    buffer.seek(SeekFrom::Start(2)).unwrap();
    let mut recall_view = RecallView::new(buffer, 5).unwrap();

    let mut data = vec![0; 3];
    assert_eq!(recall_view.read(&mut data).unwrap(), 3);
    assert_eq!(data, [3, 4, 5]);

    let mut buffer = recall_view.into_inner_no_reset();
    assert_eq!(buffer.read_u8().unwrap(), 6);

    let mut recall_view = RecallView::new(buffer, 5).unwrap();
    recall_view.seek(SeekFrom::End(0)).unwrap();
    let view = recall_view.into_view().unwrap();
    assert_eq!(view.stream_position(), 0);
    assert_eq!(view.into_inner().stream_position(), 6);
}

fn read_u8(pin: &mut StreamPin) -> u8 {
    let mut byte = vec![0; 1];
    assert_eq!(pin.read(&mut byte).unwrap(), 1);
    byte[0]
}

#[test]
fn go_to_pin() {
    let mut stream = Stream::fixed(vec![0, 1, 2, 3, 4]);
    stream.seek(SeekFrom::Current(1)).unwrap();

    let mut pin = StreamPin::new(stream).unwrap();
    pin.seek(SeekFrom::Current(3)).unwrap();

    assert_eq!(read_u8(&mut pin), 4);

    pin.go_to_pin().unwrap();

    assert_eq!(read_u8(&mut pin), 1);
}

#[test]
fn align_position_zero() {
    let mut stream = Stream::fixed(vec![0, 1, 2, 3, 4, 5, 6, 7, 8, 9]);
    stream.seek(SeekFrom::Current(1)).unwrap();

    let mut pin = StreamPin::new(stream).unwrap();

    pin.align_position(2).unwrap();

    assert_eq!(pin.stream_position(), 1);
    assert_eq!(read_u8(&mut pin), 1);
}

#[test]
fn align_position_aligned_and_non_zero() {
    let mut stream = Stream::fixed(vec![0, 1, 2, 3, 4, 5, 6, 7, 8, 9]);
    stream.seek(SeekFrom::Current(1)).unwrap();

    let mut pin = StreamPin::new(stream).unwrap();

    pin.seek(SeekFrom::Current(2)).unwrap();
    pin.align_position(2).unwrap();

    assert_eq!(pin.stream_position(), 3);
    assert_eq!(read_u8(&mut pin), 3);
}

#[test]
fn align_position_unaligned() {
    let mut stream = Stream::fixed(vec![0, 1, 2, 3, 4, 5, 6, 7, 8, 9]);
    stream.seek(SeekFrom::Current(1)).unwrap();

    let mut pin = StreamPin::new(stream).unwrap();

    pin.seek(SeekFrom::Current(3)).unwrap();
    pin.align_position(2).unwrap();

    assert_eq!(pin.stream_position(), 5);
    assert_eq!(read_u8(&mut pin), 5);
}

#[test]
fn align_zeroed() {
    let mut stream = Stream::fixed(vec![0, 1, 2, 3, 4, 5, 6, 7, 8, 9]);
    stream.seek(SeekFrom::Current(1)).unwrap();

    let mut pin = StreamPin::new(stream).unwrap();

    pin.seek(SeekFrom::Current(1)).unwrap();
    pin.align_zeroed(4).unwrap();

    assert_eq!(pin.stream_position(), 5);
    assert_eq!(read_u8(&mut pin), 5);

    let data = pin.into_inner().into_inner();
    assert_eq!(data[3], 0);
    assert_eq!(data[4], 0);
}

#[test]
fn go_relative() {
    let mut stream = Stream::fixed(vec![0, 1, 2, 3, 4, 5, 6, 7, 8, 9]);
    stream.seek(SeekFrom::Current(5)).unwrap();

    let mut pin = StreamPin::new(stream).unwrap();

    pin.seek_from_pin(2).unwrap();
    assert_eq!(read_u8(&mut pin), 7);

    pin.seek_from_pin(-3).unwrap();
    assert_eq!(read_u8(&mut pin), 2);
}

#[test]
fn relative_position_counts_from_the_pin() {
    let mut stream = Stream::fixed(vec![0, 1, 2, 3, 4, 5, 6, 7, 8, 9]);
    stream.seek(SeekFrom::Current(5)).unwrap();

    let mut pin = StreamPin::new(stream).unwrap();
    assert_eq!(pin.relative_position(), Ok(0));
    pin.seek_from_pin(-3).unwrap();
    assert_eq!(pin.relative_position(), Ok(-3));
    assert_eq!(pin.seek_from_pin(-6), Err(StreamError::InvalidSeek));
    assert_eq!(pin.relative_position(), Ok(-3));
    pin.seek(SeekFrom::End(0)).unwrap();
    assert_eq!(pin.relative_position(), Ok(5));
}
