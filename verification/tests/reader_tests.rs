use ripunzip::{ByteSource, CloneableSeekableReader, SeekFrom, UnzipError};

#[test]
fn test_cloneable_seekable_reader() {
    let buf: Vec<u8> = vec![0, 1, 2, 3, 4, 5, 6, 7, 8, 9];
    let buf = ByteSource::new(buf);
    let mut reader = CloneableSeekableReader::new(buf);
    let mut out = vec![0; 2];
    assert!(reader.read_exact(&mut out).is_ok());
    assert_eq!(out[0], 0);
    assert_eq!(out[1], 1);
    assert!(reader.seek(SeekFrom::Start(0)).is_ok());
    assert!(reader.read_exact(&mut out).is_ok());
    assert_eq!(out[0], 0);
    assert_eq!(out[1], 1);
    assert!(reader.seek(SeekFrom::Current(0)).is_ok());
    assert!(reader.read_exact(&mut out).is_ok());
    assert_eq!(out[0], 2);
    assert_eq!(out[1], 3);
    assert!(reader.seek(SeekFrom::End(-2)).is_ok());
    assert!(reader.read_exact(&mut out).is_ok());
    assert_eq!(out[0], 8);
    assert_eq!(out[1], 9);
    assert!(reader.read_exact(&mut out).is_err());
}

#[test]
fn read_at_end_is_zero_bytes_without_error() {
    let mut reader = CloneableSeekableReader::new(ByteSource::new(vec![1, 2]));
    assert_eq!(reader.seek(SeekFrom::Start(2)).unwrap(), 2);
    let mut out = vec![0; 1];
    assert_eq!(reader.read(&mut out), Ok(0));
}

#[test]
fn read_exact_past_end_reports_eof() {
    let mut reader = CloneableSeekableReader::new(ByteSource::new(vec![1, 2]));
    let mut out = vec![0; 3];
    assert_eq!(reader.read_exact(&mut out), Err(UnzipError::UnexpectedEof));
}

#[test]
fn clones_have_independent_cursors() {
    let data: Vec<u8> = (0u8..100).collect();
    let mut parent = CloneableSeekableReader::new(ByteSource::new(data));
    let mut child = parent.clone();

    // Position the two handles at different offsets; each must see exactly
    // the bytes at its own cursor, whatever the other does.
    assert_eq!(parent.seek(SeekFrom::Start(10)).unwrap(), 10);
    assert_eq!(child.seek(SeekFrom::Start(90)).unwrap(), 90);

    let mut a = vec![0; 4];
    let mut b = vec![0; 4];
    assert!(parent.read_exact(&mut a).is_ok());
    assert!(child.read_exact(&mut b).is_ok());
    assert_eq!(a, vec![10, 11, 12, 13]);
    assert_eq!(b, vec![90, 91, 92, 93]);

    // Interleave: parent reads again from where it left off.
    assert!(parent.read_exact(&mut a).is_ok());
    assert_eq!(a, vec![14, 15, 16, 17]);
}

#[test]
fn clone_starts_at_parent_position() {
    let data: Vec<u8> = vec![5, 6, 7, 8];
    let mut parent = CloneableSeekableReader::new(ByteSource::new(data));
    let mut out = vec![0; 2];
    assert!(parent.read_exact(&mut out).is_ok());
    let mut child = parent.clone();
    let mut rest = vec![0; 2];
    assert!(child.read_exact(&mut rest).is_ok());
    assert_eq!(rest, vec![7, 8]);
}

#[test]
fn seek_past_end_then_read_gives_zero_bytes() {
    let data: Vec<u8> = vec![1, 2, 3];
    let mut reader = CloneableSeekableReader::new(ByteSource::new(data));
    assert_eq!(reader.seek(SeekFrom::End(1)).unwrap(), 4);
    let mut out = vec![0; 2];
    assert_eq!(reader.read(&mut out).unwrap(), 0);
}

#[test]
fn seek_to_negative_position_fails_and_cursor_stays() {
    let data: Vec<u8> = vec![9, 8, 7];
    let mut reader = CloneableSeekableReader::new(ByteSource::new(data));
    assert_eq!(reader.seek(SeekFrom::Current(-1)), Err(UnzipError::InvalidSeek));
    assert_eq!(reader.seek(SeekFrom::End(-4)), Err(UnzipError::InvalidSeek));
    let mut out = vec![0; 1];
    assert!(reader.read_exact(&mut out).is_ok());
    assert_eq!(out[0], 9);
}

#[test]
fn short_destination_reads_exact_range() {
    let data: Vec<u8> = (0u8..32).collect();
    let mut reader = CloneableSeekableReader::new(ByteSource::new(data));
    assert_eq!(reader.seek(SeekFrom::Start(30)).unwrap(), 30);
    let mut out = vec![0; 4];
    // Only two bytes remain: a plain read reports a short read.
    let n = reader.read(&mut out).unwrap();
    assert_eq!(n, 2);
    assert_eq!(&out[..2], &[30, 31]);
}
