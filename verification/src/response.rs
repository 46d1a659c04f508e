//! Responses as frames: what a body is read as under each tag.

use crate::error::Error;
use crate::message::{
    entries_view, field_map_view, BackendMessage, BackendMessageView, RowDescriptionEntry,
    RowDescriptionEntryView, TAG_AUTHENTICATION, TAG_BACKEND_KEY_DATA, TAG_BIND_COMPLETE,
    TAG_CLOSE_COMPLETE, TAG_COMMAND_COMPLETE, TAG_DATA_ROW, TAG_EMPTY_QUERY_RESPONSE,
    TAG_ERROR_RESPONSE, TAG_NO_DATA, TAG_NOTICE_RESPONSE, TAG_PARAMETER_DESCRIPTION,
    TAG_PARAMETER_STATUS, TAG_PARSE_COMPLETE, TAG_READY_FOR_QUERY, TAG_ROW_DESCRIPTION,
};
use crate::reader::MemReader;
use crate::repeat::{lemma_prepend_empty, lemma_prepend_push, parse_counted, parse_many, prepend};
use crate::wire::{
    blob_parser, i32_parser, lemma_text_consumes, parse_i16, parse_i32, parse_text, parse_u8,
    split_frame, Parsed,
};
use std::collections::HashMap;
use vstd::prelude::*;

verus! {

/// The fields of an error or notice in the order of the body: a code byte
/// and a text each, up to the code 0 that ends the list.
pub open spec fn parse_field_list(b: Seq<u8>) -> Parsed<Seq<(u8, Seq<char>)>>
    decreases b.len(),
{
    match parse_u8(b) {
        Err(e) => Err(e),
        Ok((code, b1)) => if code == 0 {
            Ok((Seq::empty(), b1))
        } else {
            match parse_text(b1) {
                Err(e) => Err(e),
                Ok((text, b2)) => {
                    proof {
                        lemma_text_consumes(b1);
                    }
                    prepend(seq![(code, text)], parse_field_list(b2))
                },
            }
        },
    }
}

/// The mapping that a list of fields stands for: of two fields with one
/// code, the later one counts.
pub open spec fn field_map_of(fields: Seq<(u8, Seq<char>)>) -> Map<u8, Seq<char>>
    decreases fields.len(),
{
    if fields.len() == 0 {
        Map::empty()
    } else {
        field_map_of(fields.drop_last()).insert(fields.last().0, fields.last().1)
    }
}

/// A field map: the list of fields, taken as a mapping.
pub open spec fn parse_field_map(b: Seq<u8>) -> Parsed<Map<u8, Seq<char>>> {
    match parse_field_list(b) {
        Err(e) => Err(e),
        Ok((fields, rest)) => Ok((field_map_of(fields), rest)),
    }
}

/// One column of a row description: name, table, attribute number, type,
/// type size, type modifier, format.
pub open spec fn parse_entry(b: Seq<u8>) -> Parsed<RowDescriptionEntryView> {
    match parse_text(b) {
        Err(e) => Err(e),
        Ok((name, b1)) => match parse_i32(b1) {
            Err(e) => Err(e),
            Ok((table_oid, b2)) => match parse_i16(b2) {
                Err(e) => Err(e),
                Ok((column_id, b3)) => match parse_i32(b3) {
                    Err(e) => Err(e),
                    Ok((type_oid, b4)) => match parse_i16(b4) {
                        Err(e) => Err(e),
                        Ok((type_size, b5)) => match parse_i32(b5) {
                            Err(e) => Err(e),
                            Ok((type_modifier, b6)) => match parse_i16(b6) {
                                Err(e) => Err(e),
                                Ok((format, b7)) => Ok(
                                    (
                                        RowDescriptionEntryView {
                                            name,
                                            table_oid,
                                            column_id,
                                            type_oid,
                                            type_size,
                                            type_modifier,
                                            format,
                                        },
                                        b7,
                                    ),
                                ),
                            },
                        },
                    },
                },
            },
        },
    }
}

/// How a column of a row description is read, as a function.
pub open spec fn entry_parser() -> spec_fn(Seq<u8>) -> Parsed<RowDescriptionEntryView> {
    |b: Seq<u8>| parse_entry(b)
}

/// A data row: a count and that many nullable blobs.
pub open spec fn parse_data_row(b: Seq<u8>) -> Parsed<BackendMessageView> {
    match parse_counted(blob_parser(), b) {
        Err(e) => Err(e),
        Ok((values, rest)) => Ok((BackendMessageView::DataRow(values), rest)),
    }
}

/// An authentication message: only the code 0, which says that all is well,
/// is known.
pub open spec fn parse_auth_message(b: Seq<u8>) -> Parsed<BackendMessageView> {
    match parse_i32(b) {
        Err(e) => Err(e),
        Ok((code, rest)) => if code == 0 {
            Ok((BackendMessageView::AuthenticationOk, rest))
        } else {
            Err(Error::UnknownAuthentication(code))
        },
    }
}

/// A parameter description: a count and that many type identifiers.
pub open spec fn parse_parameter_description(b: Seq<u8>) -> Parsed<BackendMessageView> {
    match parse_counted(i32_parser(), b) {
        Err(e) => Err(e),
        Ok((types, rest)) => Ok((BackendMessageView::ParameterDescription(types), rest)),
    }
}

/// A row description: a count and that many columns.
pub open spec fn parse_row_description(b: Seq<u8>) -> Parsed<BackendMessageView> {
    match parse_counted(entry_parser(), b) {
        Err(e) => Err(e),
        Ok((entries, rest)) => Ok((BackendMessageView::RowDescription(entries), rest)),
    }
}

/// Whether `tag` announces a response that this codec knows.
pub open spec fn known_tag(tag: u8) -> bool {
    ||| tag == TAG_PARSE_COMPLETE
    ||| tag == TAG_BIND_COMPLETE
    ||| tag == TAG_CLOSE_COMPLETE
    ||| tag == TAG_COMMAND_COMPLETE
    ||| tag == TAG_DATA_ROW
    ||| tag == TAG_ERROR_RESPONSE
    ||| tag == TAG_EMPTY_QUERY_RESPONSE
    ||| tag == TAG_BACKEND_KEY_DATA
    ||| tag == TAG_NO_DATA
    ||| tag == TAG_NOTICE_RESPONSE
    ||| tag == TAG_AUTHENTICATION
    ||| tag == TAG_PARAMETER_STATUS
    ||| tag == TAG_PARAMETER_DESCRIPTION
    ||| tag == TAG_ROW_DESCRIPTION
    ||| tag == TAG_READY_FOR_QUERY
}

/// The response that the front of `b` holds under `tag`, and what of `b`
/// follows it.
#[verifier::opaque]
pub open spec fn parse_payload(tag: u8, b: Seq<u8>) -> Parsed<BackendMessageView> {
    if tag == TAG_PARSE_COMPLETE {
        Ok((BackendMessageView::ParseComplete, b))
    } else if tag == TAG_BIND_COMPLETE {
        Ok((BackendMessageView::BindComplete, b))
    } else if tag == TAG_CLOSE_COMPLETE {
        Ok((BackendMessageView::CloseComplete, b))
    } else if tag == TAG_COMMAND_COMPLETE {
        match parse_text(b) {
            Err(e) => Err(e),
            Ok((text, rest)) => Ok((BackendMessageView::CommandComplete(text), rest)),
        }
    } else if tag == TAG_DATA_ROW {
        parse_data_row(b)
    } else if tag == TAG_ERROR_RESPONSE {
        match parse_field_map(b) {
            Err(e) => Err(e),
            Ok((fields, rest)) => Ok((BackendMessageView::ErrorResponse(fields), rest)),
        }
    } else if tag == TAG_EMPTY_QUERY_RESPONSE {
        Ok((BackendMessageView::EmptyQueryResponse, b))
    } else if tag == TAG_BACKEND_KEY_DATA {
        match parse_i32(b) {
            Err(e) => Err(e),
            Ok((process_id, b1)) => match parse_i32(b1) {
                Err(e) => Err(e),
                Ok((secret_key, rest)) => Ok(
                    (BackendMessageView::BackendKeyData(process_id, secret_key), rest),
                ),
            },
        }
    } else if tag == TAG_NO_DATA {
        Ok((BackendMessageView::NoData, b))
    } else if tag == TAG_NOTICE_RESPONSE {
        match parse_field_map(b) {
            Err(e) => Err(e),
            Ok((fields, rest)) => Ok((BackendMessageView::NoticeResponse(fields), rest)),
        }
    } else if tag == TAG_AUTHENTICATION {
        parse_auth_message(b)
    } else if tag == TAG_PARAMETER_STATUS {
        match parse_text(b) {
            Err(e) => Err(e),
            Ok((name, b1)) => match parse_text(b1) {
                Err(e) => Err(e),
                Ok((value, rest)) => Ok((BackendMessageView::ParameterStatus(name, value), rest)),
            },
        }
    } else if tag == TAG_PARAMETER_DESCRIPTION {
        parse_parameter_description(b)
    } else if tag == TAG_ROW_DESCRIPTION {
        parse_row_description(b)
    } else if tag == TAG_READY_FOR_QUERY {
        match parse_u8(b) {
            Err(e) => Err(e),
            Ok((status, rest)) => Ok((BackendMessageView::ReadyForQuery(status), rest)),
        }
    } else {
        Err(Error::UnknownMessage(tag))
    }
}

/// A body must be used up by what is read from it.
pub open spec fn complete<T>(r: Parsed<T>) -> Result<T, Error> {
    match r {
        Err(e) => Err(e),
        Ok((v, rest)) => if rest.len() == 0 {
            Ok(v)
        } else {
            Err(Error::TrailingBytes)
        },
    }
}

/// The response that the body `body` holds under `tag`.
pub open spec fn parse_body(tag: u8, body: Seq<u8>) -> Result<BackendMessageView, Error> {
    complete(parse_payload(tag, body))
}

/// The response whose frame the front of `b` is, and what of `b` follows the
/// frame. The body that the length announces must hold the response and
/// nothing more.
pub open spec fn parse_frame(b: Seq<u8>) -> Parsed<BackendMessageView> {
    match split_frame(b) {
        Err(e) => Err(e),
        Ok(((tag, body), rest)) => match parse_body(tag, body) {
            Err(e) => Err(e),
            Ok(m) => Ok((m, rest)),
        },
    }
}

/// What a read of a response must give: where `expected` holds a message
/// and the bytes after it, that message and the reader left at those bytes;
/// where it holds an error, that error. A body that is refused is of no
/// more use, and of where its reader then stands nothing is said.
pub open spec fn reads_message(
    expected: Parsed<BackendMessageView>,
    r: Result<BackendMessage, Error>,
    after: Seq<u8>,
) -> bool {
    match expected {
        Ok((m, rest)) => r is Ok && r->Ok_0@ == m && after == rest,
        Err(e) => r == Err::<BackendMessage, Error>(e),
    }
}

/// Reads a 16-bit count, which must not be negative.
fn read_count(buf: &mut MemReader) -> (r: Result<usize, Error>)
    ensures
        match parse_i16(old(buf).remaining()) {
            Err(e) => r == Err::<usize, Error>(e),
            Ok((n, rest)) => if n < 0 {
                r == Err::<usize, Error>(Error::InvalidLength)
            } else {
                r == Ok::<usize, Error>(n as usize) && final(buf).remaining() == rest
            },
        },
{
    match buf.read_be_i16() {
        Err(e) => Err(e),
        Ok(n) => if n < 0 {
            Err(Error::InvalidLength)
        } else {
            Ok(n as usize)
        },
    }
}

/// Reads the fields of an error or notice into a mapping from field code to
/// text. Of two fields with one code the later one stays.
pub fn read_hash(buf: &mut MemReader) -> (r: Result<HashMap<u8, String>, Error>)
    ensures
        match parse_field_map(old(buf).remaining()) {
            Ok((m, rest)) => r is Ok && field_map_view(r->Ok_0@) == m && final(buf).remaining()
                == rest,
            Err(e) => r == Err::<HashMap<u8, String>, Error>(e),
        },
{
    broadcast use vstd::std_specs::hash::group_hash_axioms;

    let ghost start = buf.remaining();
    let ghost mut done: Seq<(u8, Seq<char>)> = Seq::empty();
    let mut fields: HashMap<u8, String> = HashMap::new();
    proof {
        lemma_prepend_empty(parse_field_list(start));
        assert(field_map_view(fields@) =~= field_map_of(done));
    }
    loop
        invariant
            start == old(buf).remaining(),
            parse_field_list(start) == prepend(done, parse_field_list(buf.remaining())),
            field_map_view(fields@) == field_map_of(done),
        decreases buf.remaining().len(),
    {
        let code = match buf.read_u8() {
            Ok(code) => code,
            Err(e) => {
                return Err(e);
            },
        };
        if code == 0 {
            assert(done + Seq::<(u8, Seq<char>)>::empty() =~= done);
            return Ok(fields);
        }
        let ghost b1 = buf.remaining();
        let text = match buf.read_string() {
            Ok(text) => text,
            Err(e) => {
                return Err(e);
            },
        };
        proof {
            lemma_text_consumes(b1);
            lemma_prepend_push(done, (code, text@), parse_field_list(buf.remaining()));
            assert(done.push((code, text@)).drop_last() =~= done);
            assert(field_map_view(fields@.insert(code, text)) =~= field_map_of(done).insert(
                code,
                text@,
            ));
            done = done.push((code, text@));
        }
        fields.insert(code, text);
    }
}

/// Reads a data row: a count and that many nullable blobs.
pub fn read_data_row(buf: &mut MemReader) -> (r: Result<BackendMessage, Error>)
    ensures
        reads_message(parse_data_row(old(buf).remaining()), r, final(buf).remaining()),
{
    let n = match read_count(buf) {
        Ok(n) => n,
        Err(e) => {
            return Err(e);
        },
    };
    let ghost start = buf.remaining();
    let mut values: Vec<Option<Vec<u8>>> = Vec::with_capacity(n);
    let mut i: usize = 0;
    proof {
        lemma_prepend_empty(parse_many(blob_parser(), start, n as nat));
        assert(values.deep_view() =~= Seq::empty());
    }
    while i < n
        invariant
            i <= n,
            parse_i16(old(buf).remaining()) == Ok::<(i16, Seq<u8>), Error>((n as i16, start)),
            n <= i16::MAX,
            parse_many(blob_parser(), start, n as nat) == prepend(
                values.deep_view(),
                parse_many(blob_parser(), buf.remaining(), (n - i) as nat),
            ),
        decreases n - i,
    {
        let value = match buf.read_blob() {
            Ok(value) => value,
            Err(e) => {
                return Err(e);
            },
        };
        proof {
            lemma_prepend_push(
                values.deep_view(),
                value.deep_view(),
                parse_many(blob_parser(), buf.remaining(), (n - i - 1) as nat),
            );
        }
        let ghost earlier = values.deep_view();
        let ghost latest = value.deep_view();
        values.push(value);
        assert(values.deep_view() =~= earlier.push(latest));
        i += 1;
    }
    assert(values.deep_view() + Seq::empty() =~= values.deep_view());
    Ok(BackendMessage::DataRow(values))
}

/// Reads an authentication message. Only the sub-code 0 is known.
pub fn read_auth_message(buf: &mut MemReader) -> (r: Result<BackendMessage, Error>)
    ensures
        reads_message(parse_auth_message(old(buf).remaining()), r, final(buf).remaining()),
{
    match buf.read_be_i32() {
        Err(e) => Err(e),
        Ok(code) => if code == 0 {
            Ok(BackendMessage::AuthenticationOk)
        } else {
            Err(Error::UnknownAuthentication(code))
        },
    }
}

/// Reads a parameter description: a count and that many type identifiers.
pub fn read_parameter_description(buf: &mut MemReader) -> (r: Result<BackendMessage, Error>)
    ensures
        reads_message(
            parse_parameter_description(old(buf).remaining()),
            r,
            final(buf).remaining(),
        ),
{
    let n = match read_count(buf) {
        Ok(n) => n,
        Err(e) => {
            return Err(e);
        },
    };
    let ghost start = buf.remaining();
    let mut types: Vec<i32> = Vec::with_capacity(n);
    let mut i: usize = 0;
    proof {
        lemma_prepend_empty(parse_many(i32_parser(), start, n as nat));
    }
    while i < n
        invariant
            i <= n,
            parse_i16(old(buf).remaining()) == Ok::<(i16, Seq<u8>), Error>((n as i16, start)),
            n <= i16::MAX,
            parse_many(i32_parser(), start, n as nat) == prepend(
                types@,
                parse_many(i32_parser(), buf.remaining(), (n - i) as nat),
            ),
        decreases n - i,
    {
        let ty = match buf.read_be_i32() {
            Ok(ty) => ty,
            Err(e) => {
                return Err(e);
            },
        };
        proof {
            lemma_prepend_push(
                types@,
                ty,
                parse_many(i32_parser(), buf.remaining(), (n - i - 1) as nat),
            );
        }
        types.push(ty);
        i += 1;
    }
    assert(types@ + Seq::empty() =~= types@);
    Ok(BackendMessage::ParameterDescription(types))
}

/// Reads one column of a row description.
fn read_entry(buf: &mut MemReader) -> (r: Result<RowDescriptionEntry, Error>)
    ensures
        match parse_entry(old(buf).remaining()) {
            Ok((entry, rest)) => r is Ok && r->Ok_0@ == entry && final(buf).remaining() == rest,
            Err(e) => r == Err::<RowDescriptionEntry, Error>(e),
        },
{
    let name = match buf.read_string() {
        Ok(v) => v,
        Err(e) => {
            return Err(e);
        },
    };
    let table_oid = match buf.read_be_i32() {
        Ok(v) => v,
        Err(e) => {
            return Err(e);
        },
    };
    let column_id = match buf.read_be_i16() {
        Ok(v) => v,
        Err(e) => {
            return Err(e);
        },
    };
    let type_oid = match buf.read_be_i32() {
        Ok(v) => v,
        Err(e) => {
            return Err(e);
        },
    };
    let type_size = match buf.read_be_i16() {
        Ok(v) => v,
        Err(e) => {
            return Err(e);
        },
    };
    let type_modifier = match buf.read_be_i32() {
        Ok(v) => v,
        Err(e) => {
            return Err(e);
        },
    };
    let format = match buf.read_be_i16() {
        Ok(v) => v,
        Err(e) => {
            return Err(e);
        },
    };
    Ok(
        RowDescriptionEntry {
            name,
            table_oid,
            column_id,
            type_oid,
            type_size,
            type_modifier,
            format,
        },
    )
}

/// Reads a row description: a count and that many columns.
pub fn read_row_description(buf: &mut MemReader) -> (r: Result<BackendMessage, Error>)
    ensures
        reads_message(parse_row_description(old(buf).remaining()), r, final(buf).remaining()),
{
    let n = match read_count(buf) {
        Ok(n) => n,
        Err(e) => {
            return Err(e);
        },
    };
    let ghost start = buf.remaining();
    let mut entries: Vec<RowDescriptionEntry> = Vec::with_capacity(n);
    let mut i: usize = 0;
    proof {
        lemma_prepend_empty(parse_many(entry_parser(), start, n as nat));
        assert(entries_view(entries@) =~= Seq::empty());
    }
    while i < n
        invariant
            i <= n,
            parse_i16(old(buf).remaining()) == Ok::<(i16, Seq<u8>), Error>((n as i16, start)),
            n <= i16::MAX,
            parse_many(entry_parser(), start, n as nat) == prepend(
                entries_view(entries@),
                parse_many(entry_parser(), buf.remaining(), (n - i) as nat),
            ),
        decreases n - i,
    {
        let entry = match read_entry(buf) {
            Ok(entry) => entry,
            Err(e) => {
                return Err(e);
            },
        };
        proof {
            lemma_prepend_push(
                entries_view(entries@),
                entry@,
                parse_many(entry_parser(), buf.remaining(), (n - i - 1) as nat),
            );
            assert(entries_view(entries@.push(entry)) =~= entries_view(entries@).push(entry@));
        }
        entries.push(entry);
        i += 1;
    }
    assert(entries_view(entries@) + Seq::empty() =~= entries_view(entries@));
    Ok(BackendMessage::RowDescription(entries))
}

/// Reads whatever the body of a response holds under `tag`.
fn read_payload(tag: u8, buf: &mut MemReader) -> (r: Result<BackendMessage, Error>)
    ensures
        reads_message(parse_payload(tag, old(buf).remaining()), r, final(buf).remaining()),
{
    reveal(parse_payload);
    if tag == TAG_PARSE_COMPLETE {
        Ok(BackendMessage::ParseComplete)
    } else if tag == TAG_BIND_COMPLETE {
        Ok(BackendMessage::BindComplete)
    } else if tag == TAG_CLOSE_COMPLETE {
        Ok(BackendMessage::CloseComplete)
    } else if tag == TAG_COMMAND_COMPLETE {
        match buf.read_string() {
            Err(e) => Err(e),
            Ok(text) => Ok(BackendMessage::CommandComplete(text)),
        }
    } else if tag == TAG_DATA_ROW {
        read_data_row(buf)
    } else if tag == TAG_ERROR_RESPONSE {
        match read_hash(buf) {
            Err(e) => Err(e),
            Ok(fields) => Ok(BackendMessage::ErrorResponse(fields)),
        }
    } else if tag == TAG_EMPTY_QUERY_RESPONSE {
        Ok(BackendMessage::EmptyQueryResponse)
    } else if tag == TAG_BACKEND_KEY_DATA {
        let process_id = match buf.read_be_i32() {
            Ok(v) => v,
            Err(e) => {
                return Err(e);
            },
        };
        match buf.read_be_i32() {
            Err(e) => Err(e),
            Ok(secret_key) => Ok(BackendMessage::BackendKeyData(process_id, secret_key)),
        }
    } else if tag == TAG_NO_DATA {
        Ok(BackendMessage::NoData)
    } else if tag == TAG_NOTICE_RESPONSE {
        match read_hash(buf) {
            Err(e) => Err(e),
            Ok(fields) => Ok(BackendMessage::NoticeResponse(fields)),
        }
    } else if tag == TAG_AUTHENTICATION {
        read_auth_message(buf)
    } else if tag == TAG_PARAMETER_STATUS {
        let name = match buf.read_string() {
            Ok(v) => v,
            Err(e) => {
                return Err(e);
            },
        };
        match buf.read_string() {
            Err(e) => Err(e),
            Ok(value) => Ok(BackendMessage::ParameterStatus(name, value)),
        }
    } else if tag == TAG_PARAMETER_DESCRIPTION {
        read_parameter_description(buf)
    } else if tag == TAG_ROW_DESCRIPTION {
        read_row_description(buf)
    } else if tag == TAG_READY_FOR_QUERY {
        match buf.read_u8() {
            Err(e) => Err(e),
            Ok(status) => Ok(BackendMessage::ReadyForQuery(status)),
        }
    } else {
        Err(Error::UnknownMessage(tag))
    }
}

/// The response that the body `body` of a frame holds under the tag `tag`.
/// The body must be used up: bytes left over after the last field are an
/// error, as are bytes missing.
pub fn decode_body(tag: u8, body: Vec<u8>) -> (r: Result<BackendMessage, Error>)
    ensures
        match parse_body(tag, body@) {
            Ok(m) => r is Ok && r->Ok_0@ == m,
            Err(e) => r == Err::<BackendMessage, Error>(e),
        },
{
    let mut buf = MemReader::new(body);
    match read_payload(tag, &mut buf) {
        Err(e) => Err(e),
        Ok(message) => if buf.eof() {
            Ok(message)
        } else {
            Err(Error::TrailingBytes)
        },
    }
}

/// The number of body bytes that follow a length field that holds `declared`.
pub open spec fn body_length_of(declared: i32) -> Result<usize, Error> {
    if declared < 4 {
        Err(Error::InvalidLength)
    } else {
        Ok((declared - 4) as usize)
    }
}

/// The number of body bytes that follow a length field that holds
/// `declared`: the length counts its own four bytes.
pub fn body_length(declared: i32) -> (r: Result<usize, Error>)
    ensures
        r == body_length_of(declared),
{
    if declared < 4 {
        Err(Error::InvalidLength)
    } else {
        Ok((declared - 4) as usize)
    }
}

/// A source of bytes from which responses are read.
pub trait ReadMessage {
    /// The bytes that the source still holds.
    spec fn unread(&self) -> Seq<u8>;

    /// Reads one frame: a tag byte, a length, and as many body bytes as the
    /// length says, which the response under that tag must use up. Where
    /// the source starts with a whole frame, that frame is read and not one
    /// byte more, whether its body holds a response or not: after an
    /// unknown tag or an ill-formed body the bytes that follow the frame are
    /// still unread, and nothing is looked for in them.
    fn read_message(&mut self) -> (r: Result<BackendMessage, Error>)
        ensures
            reads_message(parse_frame(old(self).unread()), r, final(self).unread()),
            split_frame(old(self).unread()) matches Ok((_, rest)) ==> final(self).unread() == rest,
    ;
}

impl ReadMessage for MemReader {
    open spec fn unread(&self) -> Seq<u8> {
        self.remaining()
    }

    fn read_message(&mut self) -> (r: Result<BackendMessage, Error>) {
        let tag = match self.read_u8() {
            Ok(v) => v,
            Err(e) => {
                return Err(e);
            },
        };
        let declared = match self.read_be_i32() {
            Ok(v) => v,
            Err(e) => {
                return Err(e);
            },
        };
        let length = match body_length(declared) {
            Ok(v) => v,
            Err(e) => {
                return Err(e);
            },
        };
        let body = match self.read_bytes(length) {
            Ok(v) => v,
            Err(e) => {
                return Err(e);
            },
        };
        decode_body(tag, body)
    }
}

} // verus!
