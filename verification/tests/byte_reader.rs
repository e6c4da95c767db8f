use vangers::bytes::ByteReader;
use vangers::error::DecodeError;

#[test]
fn test_reads_little_endian_numbers() {
    let data: Vec<u8> = vec![
        0x01, 0x02, 0x03, 0x04, 0xFE, 0xFF, 0xFF, 0xFF, 0x34, 0x12, 0x80, 0x7F, 0x08, 0x07, 0x06,
        0x05, 0x04, 0x03, 0x02, 0x01,
    ];
    let mut reader = ByteReader::new(&data);
    assert_eq!(reader.read_u32(), Ok(0x0403_0201));
    assert_eq!(reader.read_i32(), Ok(-2));
    assert_eq!(reader.read_i16(), Ok(0x1234));
    assert_eq!(reader.read_i8(), Ok(-128));
    assert_eq!(reader.read_u8(), Ok(0x7F));
    assert_eq!(reader.read_u64(), Ok(0x0102_0304_0506_0708));
    assert_eq!(reader.position(), 20);
    assert_eq!(reader.remaining(), 0);
}

#[test]
fn test_negative_sixteen_bit_number() {
    let data: Vec<u8> = vec![0x00, 0x80, 0xFF, 0xFF];
    let mut reader = ByteReader::new(&data);
    assert_eq!(reader.read_i16(), Ok(-32768));
    assert_eq!(reader.read_i16(), Ok(-1));
}

#[test]
fn test_short_read_leaves_reader_in_place() {
    let data: Vec<u8> = vec![1, 2, 3];
    let mut reader = ByteReader::new(&data);
    assert_eq!(reader.read_u32(), Err(DecodeError::TruncatedStream));
    assert_eq!(reader.read_u64(), Err(DecodeError::TruncatedStream));
    assert_eq!(reader.position(), 0);
    assert_eq!(reader.read_u8(), Ok(1));
    assert_eq!(reader.read_i16(), Ok(0x0302));
    assert_eq!(reader.read_i8(), Err(DecodeError::TruncatedStream));
    assert_eq!(reader.read_i16(), Err(DecodeError::TruncatedStream));
    assert_eq!(reader.position(), 3);
}

#[test]
fn test_skip_and_seek() {
    let data: Vec<u8> = vec![9, 8, 7, 6, 5];
    let mut reader = ByteReader::new(&data);
    assert_eq!(reader.skip(2), Ok(()));
    assert_eq!(reader.read_u8(), Ok(7));
    assert_eq!(reader.skip(3), Err(DecodeError::TruncatedStream));
    assert_eq!(reader.position(), 3);
    assert_eq!(reader.seek(5), Ok(()));
    assert_eq!(reader.remaining(), 0);
    assert_eq!(reader.seek(6), Err(DecodeError::TruncatedStream));
    assert_eq!(reader.position(), 5);
    assert_eq!(reader.seek(0), Ok(()));
    assert_eq!(reader.read_u8(), Ok(9));
    assert_eq!(reader.data(), &data[..]);
}

#[test]
fn test_error_messages_differ() {
    let all = [
        DecodeError::FormatVersionMismatch,
        DecodeError::IntegrityMismatch,
        DecodeError::TruncatedStream,
        DecodeError::UnsupportedLayout,
        DecodeError::InvalidPolygonArity,
    ];
    assert_eq!(DecodeError::TruncatedStream.message(), "input ends too early");
    assert_eq!(DecodeError::InvalidPolygonArity.message(), "polygon must have 3 or 4 corners");
    for (i, a) in all.iter().enumerate() {
        assert!(!a.message().is_empty());
        for b in all.iter().skip(i + 1) {
            assert_ne!(a.message(), b.message());
        }
    }
}
