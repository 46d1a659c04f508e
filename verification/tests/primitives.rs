use postgres_codec::error::Error;
use postgres_codec::reader::MemReader;
use postgres_codec::writer::{
    write_be_i16, write_be_i32, write_be_i64, write_bytes, write_string, write_u8,
};

#[test]
fn integers_are_written_big_endian() {
    let mut buf = Vec::new();
    write_be_i16(&mut buf, 0x0102);
    write_be_i32(&mut buf, 0x0304_0506);
    write_be_i64(&mut buf, 0x0708_090a_0b0c_0d0e);
    write_u8(&mut buf, 0x0f);
    assert_eq!(buf, (1u8..=15).collect::<Vec<u8>>());
}

#[test]
fn negative_integers_are_written_in_twos_complement() {
    let mut buf = Vec::new();
    write_be_i16(&mut buf, -2);
    write_be_i32(&mut buf, i32::MIN);
    write_be_i64(&mut buf, -1);
    assert_eq!(
        buf,
        vec![0xff, 0xfe, 0x80, 0, 0, 0, 0xff, 0xff, 0xff, 0xff, 0xff, 0xff, 0xff, 0xff]
    );
}

#[test]
fn integers_agree_with_std_on_the_extremes() {
    for v in [i16::MIN, -1, 0, 1, 255, 256, i16::MAX] {
        let mut buf = Vec::new();
        write_be_i16(&mut buf, v);
        assert_eq!(buf, v.to_be_bytes().to_vec());
        assert_eq!(MemReader::new(buf).read_be_i16(), Ok(v));
    }
    for v in [i32::MIN, -65536, -1, 0, 1, 65535, 0x0102_0304, i32::MAX] {
        let mut buf = Vec::new();
        write_be_i32(&mut buf, v);
        assert_eq!(buf, v.to_be_bytes().to_vec());
        assert_eq!(MemReader::new(buf).read_be_i32(), Ok(v));
    }
    for v in [i64::MIN, -1, 0, 1, 0x0102_0304_0506_0708, i64::MAX] {
        let mut buf = Vec::new();
        write_be_i64(&mut buf, v);
        assert_eq!(buf, v.to_be_bytes().to_vec());
        assert_eq!(MemReader::new(buf).read_be_i64(), Ok(v));
    }
}

#[test]
fn reading_past_the_end_is_an_error() {
    assert_eq!(MemReader::new(vec![]).read_u8(), Err(Error::UnexpectedEof));
    assert_eq!(MemReader::new(vec![1]).read_be_i16(), Err(Error::UnexpectedEof));
    assert_eq!(MemReader::new(vec![1, 2, 3]).read_be_i32(), Err(Error::UnexpectedEof));
    assert_eq!(MemReader::new(vec![0; 7]).read_be_i64(), Err(Error::UnexpectedEof));
    assert_eq!(MemReader::new(vec![1, 2]).read_bytes(3), Err(Error::UnexpectedEof));
}

#[test]
fn reads_follow_one_another() {
    let mut reader = MemReader::new(vec![9, 0, 1, 0, 0, 0, 2, 7, 8]);
    assert!(!reader.eof());
    assert_eq!(reader.available(), 9);
    assert_eq!(reader.read_u8(), Ok(9));
    assert_eq!(reader.read_be_i16(), Ok(1));
    assert_eq!(reader.read_be_i32(), Ok(2));
    assert_eq!(reader.read_bytes(2), Ok(vec![7, 8]));
    assert!(reader.eof());
    assert_eq!(reader.available(), 0);
    assert_eq!(reader.read_bytes(0), Ok(vec![]));
}

#[test]
fn text_is_read_back_as_written() {
    for text in ["", "a", "hello world", "é€😀", "tab\tand\nnewline"] {
        let mut buf = Vec::new();
        write_string(&mut buf, text);
        assert_eq!(buf.len(), text.len() + 1);
        assert_eq!(buf[buf.len() - 1], 0);
        let mut reader = MemReader::new(buf);
        assert_eq!(reader.read_string(), Ok(text.to_string()));
        assert!(reader.eof());
    }
}

#[test]
fn text_never_includes_its_terminator() {
    let mut reader = MemReader::new(vec![b'a', b'b', 0, b'c', 0]);
    let first = reader.read_string().unwrap();
    assert_eq!(first, "ab");
    assert!(!first.contains('\0'));
    assert_eq!(reader.read_string(), Ok("c".to_string()));
    assert!(reader.eof());
}

#[test]
fn empty_text_is_one_zero_byte() {
    let mut buf = Vec::new();
    write_string(&mut buf, "");
    assert_eq!(buf, vec![0]);
    assert_eq!(MemReader::new(buf).read_string(), Ok(String::new()));
}

#[test]
fn text_without_terminator_is_an_error() {
    assert_eq!(MemReader::new(vec![]).read_string(), Err(Error::UnexpectedEof));
    assert_eq!(
        MemReader::new(vec![b'a', b'b']).read_string(),
        Err(Error::UnexpectedEof)
    );
}

#[test]
fn text_that_is_not_utf8_is_an_error() {
    assert_eq!(
        MemReader::new(vec![0xff, 0]).read_string(),
        Err(Error::InvalidUtf8)
    );
    assert_eq!(
        MemReader::new(vec![0xc3, 0]).read_string(),
        Err(Error::InvalidUtf8)
    );
    assert_eq!(
        MemReader::new(vec![0xed, 0xa0, 0x80, 0]).read_string(),
        Err(Error::InvalidUtf8)
    );
}

#[test]
fn text_decodes_many_byte_characters() {
    let mut reader = MemReader::new(vec![0xc3, 0xa9, 0xe2, 0x82, 0xac, 0, 1]);
    let text = reader.read_string().unwrap();
    assert_eq!(text, "é€");
    assert_eq!(text.chars().count(), 2);
    assert_eq!(reader.read_u8(), Ok(1));
}

#[test]
fn text_with_embedded_terminator_is_cut_short() {
    let mut buf = Vec::new();
    write_string(&mut buf, "ab\0cd");
    assert_eq!(buf, b"ab\0cd\0".to_vec());
    let mut reader = MemReader::new(buf);
    assert_eq!(reader.read_string(), Ok("ab".to_string()));
    assert_eq!(reader.read_string(), Ok("cd".to_string()));
}

#[test]
fn blob_is_length_and_bytes() {
    let mut reader = MemReader::new(vec![0, 0, 0, 2, 5, 6, 0xff, 0xff, 0xff, 0xff, 0, 0, 0, 0]);
    assert_eq!(reader.read_blob(), Ok(Some(vec![5, 6])));
    assert_eq!(reader.read_blob(), Ok(None));
    assert_eq!(reader.read_blob(), Ok(Some(vec![])));
    assert!(reader.eof());
}

#[test]
fn blob_with_bad_length_is_an_error() {
    assert_eq!(
        MemReader::new(vec![0xff, 0xff, 0xff, 0xfe]).read_blob(),
        Err(Error::InvalidLength)
    );
    assert_eq!(
        MemReader::new(vec![0, 0, 0, 3, 1, 2]).read_blob(),
        Err(Error::UnexpectedEof)
    );
    assert_eq!(
        MemReader::new(vec![0, 0, 0]).read_blob(),
        Err(Error::UnexpectedEof)
    );
}

#[test]
fn write_bytes_appends_raw_bytes() {
    let mut buf = vec![1];
    write_bytes(&mut buf, &[2, 3]);
    write_bytes(&mut buf, &[]);
    assert_eq!(buf, vec![1, 2, 3]);
}

#[test]
fn a_read_that_fails_reads_nothing() {
    let mut reader = MemReader::new(vec![1, 2, 3]);
    assert_eq!(reader.read_be_i32(), Err(Error::UnexpectedEof));
    assert_eq!(reader.available(), 3);
    assert_eq!(reader.read_be_i64(), Err(Error::UnexpectedEof));
    assert_eq!(reader.available(), 3);
    assert_eq!(reader.read_bytes(4), Err(Error::UnexpectedEof));
    assert_eq!(reader.available(), 3);
    assert_eq!(reader.read_string(), Err(Error::UnexpectedEof));
    assert_eq!(reader.available(), 3);
    assert_eq!(reader.read_blob(), Err(Error::UnexpectedEof));
    assert_eq!(reader.available(), 3);
    assert_eq!(reader.read_be_i16(), Ok(0x0102));
    assert_eq!(reader.read_be_i16(), Err(Error::UnexpectedEof));
    assert_eq!(reader.read_u8(), Ok(3));
    assert_eq!(reader.read_u8(), Err(Error::UnexpectedEof));
    assert!(reader.eof());

    let mut reader = MemReader::new(vec![0xff, 0, 7]);
    assert_eq!(reader.read_string(), Err(Error::InvalidUtf8));
    assert_eq!(reader.available(), 3);
    assert_eq!(reader.read_u8(), Ok(0xff));

    let mut reader = MemReader::new(vec![0, 0, 0, 3, 1, 2]);
    assert_eq!(reader.read_blob(), Err(Error::UnexpectedEof));
    assert_eq!(reader.available(), 6);
    let mut reader = MemReader::new(vec![0xff, 0xff, 0xff, 0xfe, 1, 2]);
    assert_eq!(reader.read_blob(), Err(Error::InvalidLength));
    assert_eq!(reader.available(), 6);
    assert_eq!(reader.read_be_i32(), Ok(-2));
}
