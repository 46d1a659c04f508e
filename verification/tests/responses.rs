use postgres_codec::error::Error;
use postgres_codec::message::{BackendMessage, ReadMessage, RowDescriptionEntry};
use postgres_codec::reader::MemReader;
use postgres_codec::response::{
    body_length, decode_body, read_auth_message, read_data_row, read_hash,
    read_parameter_description, read_row_description,
};
use std::collections::HashMap;

fn frame(tag: u8, body: &[u8]) -> Vec<u8> {
    let mut out = vec![tag];
    out.extend_from_slice(&((body.len() as i32 + 4).to_be_bytes()));
    out.extend_from_slice(body);
    out
}

fn decode(bytes: Vec<u8>) -> Result<BackendMessage, Error> {
    MemReader::new(bytes).read_message()
}

#[test]
fn responses_without_body() {
    assert_eq!(decode(frame(b'1', &[])), Ok(BackendMessage::ParseComplete));
    assert_eq!(decode(frame(b'2', &[])), Ok(BackendMessage::BindComplete));
    assert_eq!(decode(frame(b'3', &[])), Ok(BackendMessage::CloseComplete));
    assert_eq!(decode(frame(b'I', &[])), Ok(BackendMessage::EmptyQueryResponse));
    assert_eq!(decode(frame(b'n', &[])), Ok(BackendMessage::NoData));
}

#[test]
fn command_complete_holds_the_tag_text() {
    assert_eq!(
        decode(frame(b'C', b"INSERT 0 1\0")),
        Ok(BackendMessage::CommandComplete("INSERT 0 1".to_string()))
    );
    assert_eq!(
        decode(frame(b'C', b"\0")),
        Ok(BackendMessage::CommandComplete(String::new()))
    );
}

#[test]
fn backend_key_data_holds_two_integers() {
    assert_eq!(
        decode(frame(b'K', &[0, 0, 0x30, 0x39, 0xff, 0xff, 0xff, 0xff])),
        Ok(BackendMessage::BackendKeyData(12345, -1))
    );
}

#[test]
fn ready_for_query_holds_the_status_byte() {
    assert_eq!(decode(frame(b'Z', b"I")), Ok(BackendMessage::ReadyForQuery(b'I')));
    assert_eq!(decode(frame(b'Z', b"T")), Ok(BackendMessage::ReadyForQuery(b'T')));
}

#[test]
fn parameter_status_holds_name_and_value() {
    assert_eq!(
        decode(frame(b'S', b"client_encoding\0UTF8\0")),
        Ok(BackendMessage::ParameterStatus(
            "client_encoding".to_string(),
            "UTF8".to_string()
        ))
    );
    assert_eq!(
        decode(frame(b'S', b"\0\0")),
        Ok(BackendMessage::ParameterStatus(String::new(), String::new()))
    );
}

#[test]
fn authentication_ok_is_code_zero() {
    assert_eq!(decode(frame(b'R', &[0, 0, 0, 0])), Ok(BackendMessage::AuthenticationOk));
}

#[test]
fn other_authentication_codes_are_refused() {
    assert_eq!(
        decode(frame(b'R', &[0, 0, 0, 3])),
        Err(Error::UnknownAuthentication(3))
    );
    assert_eq!(
        decode(frame(b'R', &[0, 0, 0, 5, 1, 2, 3, 4])),
        Err(Error::UnknownAuthentication(5))
    );
    let mut reader = MemReader::new(vec![0xff, 0xff, 0xff, 0xff]);
    assert_eq!(read_auth_message(&mut reader), Err(Error::UnknownAuthentication(-1)));
}

#[test]
fn data_row_holds_nullable_values() {
    let body = [
        0, 3, 0, 0, 0, 1, 0x2a, 0xff, 0xff, 0xff, 0xff, 0, 0, 0, 0,
    ];
    assert_eq!(
        decode(frame(b'D', &body)),
        Ok(BackendMessage::DataRow(vec![Some(vec![0x2a]), None, Some(vec![])]))
    );
}

#[test]
fn absent_value_is_recovered_at_its_position() {
    let body = [
        0, 4, 0xff, 0xff, 0xff, 0xff, 0, 0, 0, 1, 1, 0xff, 0xff, 0xff, 0xff, 0, 0, 0, 1, 2,
    ];
    let mut reader = MemReader::new(body.to_vec());
    match read_data_row(&mut reader) {
        Ok(BackendMessage::DataRow(values)) => {
            assert_eq!(values.len(), 4);
            assert_eq!(values[0], None);
            assert_eq!(values[1], Some(vec![1]));
            assert_eq!(values[2], None);
            assert_eq!(values[3], Some(vec![2]));
        }
        other => panic!("unexpected {:?}", other),
    }
    assert!(reader.eof());
}

#[test]
fn data_row_without_columns() {
    assert_eq!(decode(frame(b'D', &[0, 0])), Ok(BackendMessage::DataRow(vec![])));
}

#[test]
fn data_row_with_negative_count_is_refused() {
    assert_eq!(decode(frame(b'D', &[0xff, 0xff])), Err(Error::InvalidLength));
}

#[test]
fn data_row_with_missing_value_is_refused() {
    assert_eq!(
        decode(frame(b'D', &[0, 2, 0, 0, 0, 1, 7])),
        Err(Error::UnexpectedEof)
    );
    assert_eq!(
        decode(frame(b'D', &[0, 1, 0xff, 0xff, 0xff, 0xf0])),
        Err(Error::InvalidLength)
    );
}

#[test]
fn parameter_description_holds_type_identifiers() {
    assert_eq!(
        decode(frame(b't', &[0, 2, 0, 0, 0, 23, 0, 0, 0x04, 0x5a])),
        Ok(BackendMessage::ParameterDescription(vec![23, 1114]))
    );
    assert_eq!(
        decode(frame(b't', &[0, 0])),
        Ok(BackendMessage::ParameterDescription(vec![]))
    );
    let mut reader = MemReader::new(vec![0, 1, 0, 0, 0]);
    assert_eq!(read_parameter_description(&mut reader), Err(Error::UnexpectedEof));
}

fn entry_bytes(name: &str, numbers: (i32, i16, i32, i16, i32, i16)) -> Vec<u8> {
    let mut out = name.as_bytes().to_vec();
    out.push(0);
    out.extend_from_slice(&numbers.0.to_be_bytes());
    out.extend_from_slice(&numbers.1.to_be_bytes());
    out.extend_from_slice(&numbers.2.to_be_bytes());
    out.extend_from_slice(&numbers.3.to_be_bytes());
    out.extend_from_slice(&numbers.4.to_be_bytes());
    out.extend_from_slice(&numbers.5.to_be_bytes());
    out
}

#[test]
fn row_description_holds_columns() {
    let mut body = vec![0, 2];
    body.extend(entry_bytes("id", (16384, 1, 23, 4, -1, 0)));
    body.extend(entry_bytes("", (0, 0, 1114, 8, -1, 1)));
    assert_eq!(
        decode(frame(b'T', &body)),
        Ok(BackendMessage::RowDescription(vec![
            RowDescriptionEntry {
                name: "id".to_string(),
                table_oid: 16384,
                column_id: 1,
                type_oid: 23,
                type_size: 4,
                type_modifier: -1,
                format: 0,
            },
            RowDescriptionEntry {
                name: String::new(),
                table_oid: 0,
                column_id: 0,
                type_oid: 1114,
                type_size: 8,
                type_modifier: -1,
                format: 1,
            },
        ]))
    );
}

#[test]
fn row_description_without_columns() {
    assert_eq!(
        decode(frame(b'T', &[0, 0])),
        Ok(BackendMessage::RowDescription(vec![]))
    );
}

#[test]
fn row_description_cut_short_is_refused() {
    let mut body = vec![0, 1];
    body.extend(entry_bytes("id", (1, 2, 3, 4, 5, 6)));
    body.pop();
    let mut reader = MemReader::new(body);
    assert_eq!(read_row_description(&mut reader), Err(Error::UnexpectedEof));
    let mut reader = MemReader::new(vec![0x80, 0]);
    assert_eq!(read_row_description(&mut reader), Err(Error::InvalidLength));
}

#[test]
fn field_map_of_a_single_zero_byte_is_empty() {
    let mut reader = MemReader::new(vec![0]);
    assert_eq!(read_hash(&mut reader), Ok(HashMap::new()));
    assert!(reader.eof());
    assert_eq!(
        decode(frame(b'E', &[0])),
        Ok(BackendMessage::ErrorResponse(HashMap::new()))
    );
    assert_eq!(
        decode(frame(b'N', &[0])),
        Ok(BackendMessage::NoticeResponse(HashMap::new()))
    );
}

#[test]
fn field_map_holds_code_and_text() {
    let mut expected = HashMap::new();
    expected.insert(b'S', "ERROR".to_string());
    expected.insert(b'C', "42601".to_string());
    expected.insert(b'M', String::new());
    assert_eq!(
        decode(frame(b'E', b"SERROR\0C42601\0M\0\0")),
        Ok(BackendMessage::ErrorResponse(expected.clone()))
    );
    assert_eq!(
        decode(frame(b'N', b"M\0C42601\0SERROR\0\0")),
        Ok(BackendMessage::NoticeResponse(expected))
    );
}

#[test]
fn later_field_with_the_same_code_wins() {
    let mut expected = HashMap::new();
    expected.insert(b'M', "second".to_string());
    let mut reader = MemReader::new(b"Mfirst\0Msecond\0\0rest".to_vec());
    assert_eq!(read_hash(&mut reader), Ok(expected));
    assert_eq!(reader.available(), 4);
}

#[test]
fn field_map_without_end_is_refused() {
    let mut reader = MemReader::new(b"Mtext\0".to_vec());
    assert_eq!(read_hash(&mut reader), Err(Error::UnexpectedEof));
    let mut reader = MemReader::new(b"Mtext".to_vec());
    assert_eq!(read_hash(&mut reader), Err(Error::UnexpectedEof));
    let mut reader = MemReader::new(vec![]);
    assert_eq!(read_hash(&mut reader), Err(Error::UnexpectedEof));
    let mut reader = MemReader::new(vec![b'M', 0xff, 0, 0]);
    assert_eq!(read_hash(&mut reader), Err(Error::InvalidUtf8));
}

#[test]
fn unknown_tag_is_refused() {
    assert_eq!(decode(frame(b'z', &[])), Err(Error::UnknownMessage(b'z')));
    assert_eq!(decode(frame(0, &[1, 2, 3])), Err(Error::UnknownMessage(0)));
    assert_eq!(decode(frame(b'B', &[])), Err(Error::UnknownMessage(b'B')));
    assert_eq!(decode_body(b'Q', vec![]), Err(Error::UnknownMessage(b'Q')));
}

#[test]
fn body_with_a_byte_too_many_is_refused() {
    assert_eq!(decode(frame(b'1', &[0])), Err(Error::TrailingBytes));
    assert_eq!(decode(frame(b'Z', b"II")), Err(Error::TrailingBytes));
    assert_eq!(decode(frame(b'C', b"SELECT 1\0\0")), Err(Error::TrailingBytes));
    assert_eq!(decode(frame(b'R', &[0, 0, 0, 0, 0])), Err(Error::TrailingBytes));
    assert_eq!(decode(frame(b'D', &[0, 0, 0])), Err(Error::TrailingBytes));
    assert_eq!(decode(frame(b'E', &[0, 0])), Err(Error::TrailingBytes));
    assert_eq!(decode(frame(b't', &[0, 0, 9])), Err(Error::TrailingBytes));
    assert_eq!(decode(frame(b'T', &[0, 0, 9])), Err(Error::TrailingBytes));
    assert_eq!(
        decode(frame(b'K', &[0, 0, 0, 1, 0, 0, 0, 2, 3])),
        Err(Error::TrailingBytes)
    );
    assert_eq!(decode(frame(b'S', b"a\0b\0c")), Err(Error::TrailingBytes));
}

#[test]
fn body_with_a_byte_too_few_is_refused() {
    assert_eq!(decode(frame(b'Z', b"")), Err(Error::UnexpectedEof));
    assert_eq!(decode(frame(b'C', b"SELECT 1")), Err(Error::UnexpectedEof));
    assert_eq!(decode(frame(b'R', &[0, 0, 0])), Err(Error::UnexpectedEof));
    assert_eq!(decode(frame(b'D', &[0])), Err(Error::UnexpectedEof));
    assert_eq!(decode(frame(b'E', b"Mtext\0")), Err(Error::UnexpectedEof));
    assert_eq!(decode(frame(b't', &[0, 1, 0, 0, 0])), Err(Error::UnexpectedEof));
    assert_eq!(
        decode(frame(b'K', &[0, 0, 0, 1, 0, 0, 0])),
        Err(Error::UnexpectedEof)
    );
    assert_eq!(decode(frame(b'S', b"a\0b")), Err(Error::UnexpectedEof));
}

#[test]
fn text_that_is_not_utf8_is_refused() {
    assert_eq!(decode(frame(b'C', &[0xff, 0xfe, 0])), Err(Error::InvalidUtf8));
}

#[test]
fn frame_cut_short_is_refused() {
    assert_eq!(decode(vec![]), Err(Error::UnexpectedEof));
    assert_eq!(decode(vec![b'Z']), Err(Error::UnexpectedEof));
    assert_eq!(decode(vec![b'Z', 0, 0, 0]), Err(Error::UnexpectedEof));
    assert_eq!(decode(vec![b'Z', 0, 0, 0, 5]), Err(Error::UnexpectedEof));
    assert_eq!(decode(vec![b'C', 0, 0, 0, 9, b'a', b'b', 0]), Err(Error::UnexpectedEof));
}

#[test]
fn declared_length_below_four_is_refused() {
    assert_eq!(decode(vec![b'1', 0, 0, 0, 3]), Err(Error::InvalidLength));
    assert_eq!(decode(vec![b'1', 0, 0, 0, 0]), Err(Error::InvalidLength));
    assert_eq!(decode(vec![b'1', 0xff, 0xff, 0xff, 0xff]), Err(Error::InvalidLength));
    assert_eq!(body_length(3), Err(Error::InvalidLength));
    assert_eq!(body_length(4), Ok(0));
    assert_eq!(body_length(i32::MAX), Ok(0x7fff_fffb));
}

#[test]
fn frames_are_read_one_after_the_other() {
    let mut bytes = frame(b'1', &[]);
    bytes.extend(frame(b'C', b"SELECT 1\0"));
    bytes.extend(frame(b'Z', b"I"));
    let mut reader = MemReader::new(bytes);
    assert_eq!(reader.read_message(), Ok(BackendMessage::ParseComplete));
    assert_eq!(
        reader.read_message(),
        Ok(BackendMessage::CommandComplete("SELECT 1".to_string()))
    );
    assert_eq!(reader.read_message(), Ok(BackendMessage::ReadyForQuery(b'I')));
    assert!(reader.eof());
    assert_eq!(reader.read_message(), Err(Error::UnexpectedEof));
}

#[test]
fn decode_body_reads_a_whole_body() {
    assert_eq!(decode_body(b'Z', vec![b'E']), Ok(BackendMessage::ReadyForQuery(b'E')));
    assert_eq!(decode_body(b'Z', vec![b'E', 0]), Err(Error::TrailingBytes));
    assert_eq!(decode_body(b'Z', vec![]), Err(Error::UnexpectedEof));
}

#[test]
fn every_body_is_refused_with_a_byte_more_or_less() {
    let mut row = vec![0, 1];
    row.extend(entry_bytes("c", (1, 2, 3, 4, 5, 6)));
    let bodies: Vec<(u8, Vec<u8>)> = vec![
        (b'C', b"UPDATE 3\0".to_vec()),
        (b'D', vec![0, 2, 0, 0, 0, 1, 9, 0xff, 0xff, 0xff, 0xff]),
        (b'E', b"SFATAL\0\0".to_vec()),
        (b'K', vec![0, 0, 0, 1, 0, 0, 0, 2]),
        (b'N', b"Mhello\0\0".to_vec()),
        (b'R', vec![0, 0, 0, 0]),
        (b'S', b"TimeZone\0UTC\0".to_vec()),
        (b't', vec![0, 1, 0, 0, 0, 23]),
        (b'T', row),
        (b'Z', vec![b'I']),
    ];
    for (tag, body) in bodies {
        assert!(decode_body(tag, body.clone()).is_ok());
        let mut longer = body.clone();
        longer.push(0);
        assert_eq!(decode_body(tag, longer), Err(Error::TrailingBytes));
        let mut shorter = body.clone();
        shorter.pop();
        assert!(decode_body(tag, shorter).is_err());
    }
}

#[test]
fn nothing_after_a_refused_frame_is_read() {
    let mut bytes = frame(b'z', &[1, 2, 3]);
    let next = frame(b'Z', b"I");
    bytes.extend(next.clone());
    let mut reader = MemReader::new(bytes);
    assert_eq!(reader.read_message(), Err(Error::UnknownMessage(b'z')));
    assert_eq!(reader.available(), next.len());
    assert_eq!(reader.read_message(), Ok(BackendMessage::ReadyForQuery(b'I')));
    assert!(reader.eof());

    let mut bytes = frame(b'Z', b"II");
    bytes.extend(next.clone());
    let mut reader = MemReader::new(bytes);
    assert_eq!(reader.read_message(), Err(Error::TrailingBytes));
    assert_eq!(reader.available(), next.len());

    let mut bytes = frame(b'C', &[0xff, 0]);
    bytes.extend(next.clone());
    let mut reader = MemReader::new(bytes);
    assert_eq!(reader.read_message(), Err(Error::InvalidUtf8));
    assert_eq!(reader.available(), next.len());
}
