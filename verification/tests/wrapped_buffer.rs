use dns_codec::parser::{ParseError, WrappedBuffer, BUFFER_SIZE};

const BUFFER_OVERRUN_MESSAGE: &str = "Expected buffer overrun.";

fn expect_error<T>(result: Result<T, ParseError>, msg: &str) {
    match result {
        Err(_) => (),
        _ => panic!("{}", msg),
    }
}

#[test]
fn reading_fails_on_buffer_overrun() {
    let mut buffer = WrappedBuffer::new();
    buffer.seek(BUFFER_SIZE).unwrap();

    expect_error(buffer.read_u8(), BUFFER_OVERRUN_MESSAGE);
    expect_error(buffer.read_u16(), BUFFER_OVERRUN_MESSAGE);
    expect_error(buffer.read_u32(), BUFFER_OVERRUN_MESSAGE);
}

#[test]
fn peek_fails_on_buffer_overrun() {
    let buffer = WrappedBuffer::new();
    expect_error(buffer.peek(BUFFER_SIZE), BUFFER_OVERRUN_MESSAGE);
}

#[test]
fn get_slice_fails_on_buffer_overrun() {
    let buffer = WrappedBuffer::new();
    expect_error(
        buffer.get_slice(BUFFER_SIZE / 2, BUFFER_SIZE / 2 + 1),
        BUFFER_OVERRUN_MESSAGE,
    );
}

#[test]
fn overrun_is_reported_as_end_of_buffer() {
    let mut buffer = WrappedBuffer::new();
    buffer.seek(BUFFER_SIZE).unwrap();
    assert_eq!(buffer.read_u8(), Err(ParseError::EndOfBuffer));
    assert_eq!(buffer.write_u8(1), Err(ParseError::EndOfBuffer));
    assert_eq!(buffer.peek(BUFFER_SIZE), Err(ParseError::EndOfBuffer));
    assert_eq!(buffer.peek(usize::MAX), Err(ParseError::EndOfBuffer));
    assert_eq!(buffer.get_slice(0, BUFFER_SIZE + 1).err(), Some(ParseError::EndOfBuffer));
    assert_eq!(buffer.get_slice(usize::MAX, 2).err(), Some(ParseError::EndOfBuffer));
    assert_eq!(buffer.pos(), BUFFER_SIZE);
}

#[test]
fn a_slice_may_reach_the_last_byte() {
    let mut buffer = WrappedBuffer::new();
    buffer.seek(BUFFER_SIZE - 1).unwrap();
    buffer.write_u8(7).unwrap();
    let slice = buffer.get_slice(BUFFER_SIZE / 2, BUFFER_SIZE / 2).unwrap();
    assert_eq!(slice.len(), BUFFER_SIZE / 2);
    assert_eq!(slice[BUFFER_SIZE / 2 - 1], 7);
    assert_eq!(buffer.get_slice(BUFFER_SIZE, 0).unwrap().len(), 0);
    assert_eq!(buffer.peek(BUFFER_SIZE - 1), Ok(7));
}

#[test]
fn numbers_are_written_most_significant_byte_first() {
    let mut buffer = WrappedBuffer::new();
    buffer.write_u16(0xBED8).unwrap();
    buffer.write_u32(0x8EFA474E).unwrap();
    buffer.write_u8(0x2A).unwrap();
    assert_eq!(buffer.pos(), 7);
    assert_eq!(buffer.get_slice(0, 7).unwrap(), &[0xBE, 0xD8, 0x8E, 0xFA, 0x47, 0x4E, 0x2A]);
}

#[test]
fn numbers_are_read_back_as_written() {
    let mut buffer = WrappedBuffer::new();
    buffer.write_u16(48824).unwrap();
    buffer.seek(0).unwrap();
    assert_eq!(buffer.read_u16(), Ok(48824));

    buffer.seek(0).unwrap();
    buffer.write_u32(0xDEADBEEF).unwrap();
    buffer.seek(0).unwrap();
    assert_eq!(buffer.read_u32(), Ok(0xDEADBEEF));
    assert_eq!(buffer.pos(), 4);

    buffer.seek(0).unwrap();
    buffer.write_u8(200).unwrap();
    buffer.seek(0).unwrap();
    assert_eq!(buffer.read_u8(), Ok(200));
    assert_eq!(buffer.pos(), 1);
}

#[test]
fn peek_and_slice_leave_the_position() {
    let mut buffer = WrappedBuffer::from_bytes(&[1, 2, 3, 4]);
    buffer.advance(2).unwrap();
    assert_eq!(buffer.peek(0), Ok(1));
    assert_eq!(buffer.get_slice(1, 3).unwrap(), &[2, 3, 4]);
    assert_eq!(buffer.pos(), 2);
    assert_eq!(buffer.read_u8(), Ok(3));
}

#[test]
fn a_write_that_does_not_fit_fails() {
    let mut buffer = WrappedBuffer::new();
    buffer.seek(BUFFER_SIZE - 1).unwrap();
    assert_eq!(buffer.write_u16(1), Err(ParseError::EndOfBuffer));
    buffer.seek(BUFFER_SIZE - 3).unwrap();
    assert_eq!(buffer.write_u32(1), Err(ParseError::EndOfBuffer));
    buffer.seek(BUFFER_SIZE - 4).unwrap();
    assert_eq!(buffer.write_u32(1), Ok(()));
    assert_eq!(buffer.pos(), BUFFER_SIZE);
}

#[test]
fn a_buffer_takes_the_first_bytes_of_a_long_datagram() {
    let long = vec![9u8; 600];
    let mut buffer = WrappedBuffer::from_bytes(&long);
    assert_eq!(buffer.peek(BUFFER_SIZE - 1), Ok(9));
    assert_eq!(buffer.pos(), 0);
    buffer.as_slice().unwrap()[0] = 5;
    assert_eq!(buffer.read_u8(), Ok(5));
    assert_eq!(buffer.as_slice().unwrap().len(), BUFFER_SIZE);
}

#[test]
fn a_fresh_buffer_is_zero_filled() {
    let buffer = WrappedBuffer::new();
    assert_eq!(buffer.pos(), 0);
    assert_eq!(buffer.get_slice(0, BUFFER_SIZE).unwrap(), &[0u8; BUFFER_SIZE]);
}

#[test]
fn failures_have_a_message() {
    assert_eq!(ParseError::EndOfBuffer.message(), "End of buffer!");
}
