use postgres_codec::command::encode;
use postgres_codec::message::{FrontendMessage, WriteMessage, PROTOCOL_VERSION};
use postgres_codec::writer::write_blob;

fn frame(tag: u8, body: &[u8]) -> Vec<u8> {
    let mut out = vec![tag];
    out.extend_from_slice(&((body.len() as i32 + 4).to_be_bytes()));
    out.extend_from_slice(body);
    out
}

#[test]
fn query_frame_is_tag_length_text() {
    let bytes = encode(&FrontendMessage::Query("SELECT 1"));
    let mut expected = vec![b'Q', 0, 0, 0, 13];
    expected.extend_from_slice(b"SELECT 1");
    expected.push(0);
    assert_eq!(bytes, expected);
}

#[test]
fn query_with_empty_text_holds_only_the_terminator() {
    assert_eq!(encode(&FrontendMessage::Query("")), vec![b'Q', 0, 0, 0, 5, 0]);
}

#[test]
fn sync_and_terminate_have_empty_bodies() {
    assert_eq!(encode(&FrontendMessage::Sync), vec![b'S', 0, 0, 0, 4]);
    assert_eq!(encode(&FrontendMessage::Terminate), vec![b'X', 0, 0, 0, 4]);
}

#[test]
fn write_message_appends_to_the_sink() {
    let mut sink: Vec<u8> = vec![0xaa];
    sink.write_message(&FrontendMessage::Sync);
    sink.write_message(&FrontendMessage::Terminate);
    assert_eq!(sink, vec![0xaa, b'S', 0, 0, 0, 4, b'X', 0, 0, 0, 4]);
}

#[test]
fn close_and_describe_hold_kind_and_name() {
    assert_eq!(
        encode(&FrontendMessage::Close(b'S', "stmt")),
        frame(b'C', b"Sstmt\0")
    );
    assert_eq!(
        encode(&FrontendMessage::Describe(b'P', "")),
        frame(b'D', b"P\0")
    );
}

#[test]
fn execute_holds_portal_and_row_limit() {
    assert_eq!(
        encode(&FrontendMessage::Execute("cursor", 0)),
        frame(b'E', b"cursor\0\0\0\0\0")
    );
    assert_eq!(
        encode(&FrontendMessage::Execute("", -2)),
        frame(b'E', &[0, 0xff, 0xff, 0xff, 0xfe])
    );
}

#[test]
fn parse_holds_name_query_and_parameter_types() {
    let types = [23, 1114];
    let bytes = encode(&FrontendMessage::Parse("s", "SELECT $1, $2", &types));
    let mut body = Vec::new();
    body.extend_from_slice(b"s\0SELECT $1, $2\0");
    body.extend_from_slice(&[0, 2]);
    body.extend_from_slice(&[0, 0, 0, 23]);
    body.extend_from_slice(&[0, 0, 0x04, 0x5a]);
    assert_eq!(bytes, frame(b'P', &body));
}

#[test]
fn parse_without_parameter_types_has_count_zero() {
    let bytes = encode(&FrontendMessage::Parse("", "", &[]));
    assert_eq!(bytes, frame(b'P', &[0, 0, 0, 0]));
}

#[test]
fn bind_writes_formats_values_and_result_formats() {
    let formats = [1i16];
    let values = [Some(vec![0xde, 0xad]), None, Some(vec![])];
    let result_formats = [0i16, 1];
    let bytes = encode(&FrontendMessage::Bind(
        "portal",
        "stmt",
        &formats,
        &values,
        &result_formats,
    ));
    let mut body = Vec::new();
    body.extend_from_slice(b"portal\0stmt\0");
    body.extend_from_slice(&[0, 1, 0, 1]);
    body.extend_from_slice(&[0, 3]);
    body.extend_from_slice(&[0, 0, 0, 2, 0xde, 0xad]);
    body.extend_from_slice(&[0xff, 0xff, 0xff, 0xff]);
    body.extend_from_slice(&[0, 0, 0, 0]);
    body.extend_from_slice(&[0, 2, 0, 0, 0, 1]);
    assert_eq!(bytes, frame(b'B', &body));
}

#[test]
fn bind_with_nothing_in_it() {
    let bytes = encode(&FrontendMessage::Bind("", "", &[], &[], &[]));
    assert_eq!(bytes, frame(b'B', &[0, 0, 0, 0, 0, 0, 0, 0]));
}

#[test]
fn absent_value_is_length_minus_one_and_no_payload() {
    let mut buf = Vec::new();
    write_blob(&mut buf, &None);
    assert_eq!(buf, vec![0xff, 0xff, 0xff, 0xff]);
    write_blob(&mut buf, &Some(vec![7]));
    assert_eq!(buf, vec![0xff, 0xff, 0xff, 0xff, 0, 0, 0, 1, 7]);
}

#[test]
fn startup_message_has_no_tag() {
    let params = [("user", "postgres"), ("database", "db")];
    let bytes = encode(&FrontendMessage::StartupMessage(&params));
    let mut body = Vec::new();
    body.extend_from_slice(&PROTOCOL_VERSION.to_be_bytes());
    body.extend_from_slice(b"user\0postgres\0database\0db\0");
    body.push(0);
    let mut expected = Vec::new();
    expected.extend_from_slice(&((body.len() as i32 + 4).to_be_bytes()));
    expected.extend_from_slice(&body);
    assert_eq!(bytes, expected);
    assert_eq!(&bytes[4..8], &[0, 3, 0, 0]);
}

#[test]
fn startup_message_without_parameters() {
    let bytes = encode(&FrontendMessage::StartupMessage(&[]));
    assert_eq!(bytes, vec![0, 0, 0, 9, 0, 3, 0, 0, 0]);
}

#[test]
fn declared_length_is_body_length_plus_four() {
    let values = [None, Some(vec![1, 2, 3])];
    let messages = [
        FrontendMessage::Bind("a", "b", &[0], &values, &[]),
        FrontendMessage::Close(b'P', "x"),
        FrontendMessage::Describe(b'S', "y"),
        FrontendMessage::Execute("z", 10),
        FrontendMessage::Parse("n", "q", &[1, 2, 3]),
        FrontendMessage::Query("select"),
        FrontendMessage::Sync,
        FrontendMessage::Terminate,
    ];
    for message in messages.iter() {
        let bytes = encode(message);
        let declared = i32::from_be_bytes([bytes[1], bytes[2], bytes[3], bytes[4]]);
        assert_eq!(declared as usize, bytes.len() - 1);
    }
    let bytes = encode(&FrontendMessage::StartupMessage(&[("k", "v")]));
    let declared = i32::from_be_bytes([bytes[0], bytes[1], bytes[2], bytes[3]]);
    assert_eq!(declared as usize, bytes.len());
}

#[test]
fn count_that_does_not_fit_is_written_reduced() {
    let formats = vec![0i16; 65537];
    let bytes = encode(&FrontendMessage::Bind("", "", &formats, &[], &[]));
    assert_eq!(&bytes[5..9], &[0, 0, 0, 1]);
    assert_eq!(bytes.len(), 1 + 4 + 2 + 2 + 2 * 65537 + 2 + 2);
}

#[test]
fn text_with_many_byte_characters_is_written_as_utf8() {
    let bytes = encode(&FrontendMessage::Query("é€"));
    assert_eq!(bytes, frame(b'Q', &[0xc3, 0xa9, 0xe2, 0x82, 0xac, 0]));
}

#[test]
fn startup_refuses_a_name_that_occurs_twice() {
    let params = [("user", "a"), ("database", "b"), ("user", "c")];
    assert_eq!(FrontendMessage::startup(&params), None);
    let params = [("user", "a"), ("database", "a")];
    assert_eq!(
        FrontendMessage::startup(&params),
        Some(FrontendMessage::StartupMessage(&params))
    );
    assert_eq!(
        FrontendMessage::startup(&[]),
        Some(FrontendMessage::StartupMessage(&[]))
    );
    let params = [("a", ""), ("ab", ""), ("", ""), ("b", "")];
    assert!(FrontendMessage::startup(&params).is_some());
    let params = [("", "x"), ("", "y")];
    assert!(FrontendMessage::startup(&params).is_none());
}

#[test]
fn startup_parameter_with_empty_name_or_value_is_written_as_it_is() {
    let bytes = encode(&FrontendMessage::StartupMessage(&[("", "v"), ("k", ""), ("", "")]));
    assert_eq!(
        bytes,
        vec![0, 0, 0, 17, 0, 3, 0, 0, 0, b'v', 0, b'k', 0, 0, 0, 0, 0]
    );
}
