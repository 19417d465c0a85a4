use clickthrough::reader::{ByteReader, SeekFrom};

#[test]
fn read_fills_buffer() {
    let mut r = ByteReader::new(vec![1u8, 2, 3, 4, 5]);
    let mut buf = vec![0u8; 3];
    let n = r.read(&mut buf);
    assert_eq!(n, 3);
    assert_eq!(buf, vec![1u8, 2, 3]);
    assert_eq!(r.cursor, 3);
}

#[test]
fn read_stops_at_end() {
    let mut r = ByteReader::new(vec![1u8, 2, 3, 4, 5]);
    let mut buf = vec![9u8; 3];
    assert_eq!(r.read(&mut buf), 3);
    let n = r.read(&mut buf);
    assert_eq!(n, 2);
    assert_eq!(buf, vec![4u8, 5, 3]);
    assert_eq!(r.read(&mut buf), 0);
    assert_eq!(buf, vec![4u8, 5, 3]);
}

#[test]
fn read_empty_buffer() {
    let mut r = ByteReader::new(vec![1u8, 2]);
    let mut buf: Vec<u8> = Vec::new();
    assert_eq!(r.read(&mut buf), 0);
    assert_eq!(r.cursor, 0);
}

#[test]
fn seek_start_clamps_to_len() {
    let mut r = ByteReader::new(vec![0u8; 5]);
    assert_eq!(r.seek(SeekFrom::Start(3)), 3);
    assert_eq!(r.seek(SeekFrom::Start(100)), 5);
}

#[test]
fn seek_current_forward_clamps() {
    let mut r = ByteReader::new(vec![0u8; 5]);
    assert_eq!(r.seek(SeekFrom::Current(2)), 2);
    assert_eq!(r.seek(SeekFrom::Current(100)), 5);
}

#[test]
fn seek_current_backward() {
    let mut r = ByteReader::new(vec![0u8; 5]);
    assert_eq!(r.seek(SeekFrom::Start(4)), 4);
    assert_eq!(r.seek(SeekFrom::Current(-3)), 1);
}

#[test]
fn seek_end() {
    let mut r = ByteReader::new(vec![0u8; 5]);
    assert_eq!(r.seek(SeekFrom::End(2)), 5);
    assert_eq!(r.seek(SeekFrom::End(-2)), 3);
    assert_eq!(r.seek(SeekFrom::End(-5)), 0);
}

#[test]
fn read_after_seek() {
    let mut r = ByteReader::new(vec![10u8, 11, 12, 13]);
    r.seek(SeekFrom::Start(2));
    let mut buf = vec![0u8; 4];
    let n = r.read(&mut buf);
    assert_eq!(n, 2);
    assert_eq!(buf, vec![12u8, 13, 0, 0]);
}
