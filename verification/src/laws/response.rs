//! The laws of the responses: what a response is written as, that it is read
//! back from that, and that a body holds not one byte more or less than its
//! response.

use crate::bytes::{be_i16, be_i32};
use crate::error::Error;
use crate::laws::primitive::{
    lemma_i16_field_inverse, lemma_i16_field_round_trip, lemma_i32_field_inverse,
    lemma_i32_field_round_trip, lemma_split_frame_inverse, lemma_split_frame_round_trip,
    lemma_text_inverse, lemma_text_round_trip, lemma_u8_inverse, lemma_u8_round_trip,
};
use crate::laws::repeat::{
    all_valid, fitting_blob, lemma_all_valid_front, lemma_blob_format,
    lemma_counted_fails_as_its_field, lemma_counted_inverse, lemma_counted_round_trip,
    lemma_i32_format,
};
use crate::laws::{always, inverts, round_trips};
use crate::message::{
    BackendMessageView, RowDescriptionEntryView, TAG_AUTHENTICATION, TAG_BACKEND_KEY_DATA,
    TAG_BIND_COMPLETE, TAG_CLOSE_COMPLETE, TAG_COMMAND_COMPLETE, TAG_DATA_ROW,
    TAG_EMPTY_QUERY_RESPONSE, TAG_ERROR_RESPONSE, TAG_NO_DATA, TAG_NOTICE_RESPONSE,
    TAG_PARAMETER_DESCRIPTION, TAG_PARAMETER_STATUS, TAG_PARSE_COMPLETE, TAG_READY_FOR_QUERY,
    TAG_ROW_DESCRIPTION,
};
use crate::repeat::{counted_bytes, lemma_many_bytes_front, many_bytes};
use crate::response::{
    entry_parser, field_map_of, known_tag, parse_body, parse_data_row, parse_entry,
    parse_field_list, parse_field_map, parse_frame, parse_parameter_description, parse_payload,
    parse_row_description,
};
use crate::wire::{
    blob_parser, blob_writer, frame, i32_parser, i32_writer, lemma_text_consumes, nul_free,
    parse_i16, parse_i32, parse_text, parse_u8, split_frame, text_bytes,
};
use vstd::prelude::*;

verus! {

/// What a column of a row description is written as.
pub open spec fn entry_bytes(e: RowDescriptionEntryView) -> Seq<u8> {
    text_bytes(e.name) + be_i32(e.table_oid) + be_i16(e.column_id) + be_i32(e.type_oid) + be_i16(
        e.type_size,
    ) + be_i32(e.type_modifier) + be_i16(e.format)
}

/// How a column of a row description is written, as a function.
pub open spec fn entry_writer() -> spec_fn(RowDescriptionEntryView) -> Seq<u8> {
    |e: RowDescriptionEntryView| entry_bytes(e)
}

/// The columns whose name can be written as a text field, as a predicate.
pub open spec fn valid_entry() -> spec_fn(RowDescriptionEntryView) -> bool {
    |e: RowDescriptionEntryView| nul_free(e.name)
}

/// What a field of an error or notice is written as: its code and its text.
pub open spec fn field_bytes(f: (u8, Seq<char>)) -> Seq<u8> {
    seq![f.0] + text_bytes(f.1)
}

/// How a field of an error or notice is written, as a function.
pub open spec fn field_writer() -> spec_fn((u8, Seq<char>)) -> Seq<u8> {
    |f: (u8, Seq<char>)| field_bytes(f)
}

/// The fields that can be written: the code 0 ends the list, so no field
/// has it, and the text holds no character of code 0.
pub open spec fn valid_field() -> spec_fn((u8, Seq<char>)) -> bool {
    |f: (u8, Seq<char>)| f.0 != 0 && nul_free(f.1)
}

/// What a list of fields is written as: the fields, then the code 0.
pub open spec fn field_list_bytes(fields: Seq<(u8, Seq<char>)>) -> Seq<u8> {
    many_bytes(field_writer(), fields) + seq![0u8]
}

/// A column that was written is read back.
pub proof fn lemma_entry_round_trip(e: RowDescriptionEntryView, t: Seq<u8>)
    requires
        nul_free(e.name),
    ensures
        parse_entry(entry_bytes(e) + t) == Ok::<(RowDescriptionEntryView, Seq<u8>), Error>(
            (e, t),
        ),
{
    let b6 = be_i16(e.format) + t;
    let b5 = be_i32(e.type_modifier) + b6;
    let b4 = be_i16(e.type_size) + b5;
    let b3 = be_i32(e.type_oid) + b4;
    let b2 = be_i16(e.column_id) + b3;
    let b1 = be_i32(e.table_oid) + b2;
    assert(entry_bytes(e) + t =~= text_bytes(e.name) + b1);
    lemma_text_round_trip(e.name, b1);
    lemma_i32_field_round_trip(e.table_oid, b2);
    lemma_i16_field_round_trip(e.column_id, b3);
    lemma_i32_field_round_trip(e.type_oid, b4);
    lemma_i16_field_round_trip(e.type_size, b5);
    lemma_i32_field_round_trip(e.type_modifier, b6);
    lemma_i16_field_round_trip(e.format, t);
}

/// The bytes that a column was read from are the bytes of the column and
/// what was left.
pub proof fn lemma_entry_inverse(s: Seq<u8>)
    ensures
        parse_entry(s) matches Ok((e, r)) ==> s == entry_bytes(e) + r && nul_free(e.name),
{
    if parse_entry(s) is Ok {
        let (e, r) = parse_entry(s)->Ok_0;
        lemma_text_inverse(s);
        let b1 = parse_text(s)->Ok_0.1;
        lemma_i32_field_inverse(b1);
        let b2 = parse_i32(b1)->Ok_0.1;
        lemma_i16_field_inverse(b2);
        let b3 = parse_i16(b2)->Ok_0.1;
        lemma_i32_field_inverse(b3);
        let b4 = parse_i32(b3)->Ok_0.1;
        lemma_i16_field_inverse(b4);
        let b5 = parse_i16(b4)->Ok_0.1;
        lemma_i32_field_inverse(b5);
        let b6 = parse_i32(b5)->Ok_0.1;
        lemma_i16_field_inverse(b6);
        assert(s =~= entry_bytes(e) + r);
    }
}

/// Columns obey both laws, where their name can be written.
pub proof fn lemma_entry_format()
    ensures
        round_trips(entry_parser(), entry_writer(), valid_entry()),
        inverts(entry_parser(), entry_writer(), valid_entry()),
{
    let p = entry_parser();
    let e = entry_writer();
    assert forall|v: RowDescriptionEntryView, t: Seq<u8>| nul_free(v.name) implies #[trigger] p(
        e(v) + t,
    ) == Ok::<(RowDescriptionEntryView, Seq<u8>), Error>((v, t)) by {
        lemma_entry_round_trip(v, t);
    }
    assert forall|s: Seq<u8>| (#[trigger] p(s)) is Ok implies s == e(p(s)->Ok_0.0) + p(
        s,
    )->Ok_0.1 && nul_free(p(s)->Ok_0.0.name) by {
        lemma_entry_inverse(s);
    }
}

/// A list of fields that was written is read back.
pub proof fn lemma_field_list_round_trip(fields: Seq<(u8, Seq<char>)>, t: Seq<u8>)
    requires
        all_valid(valid_field(), fields),
    ensures
        parse_field_list(field_list_bytes(fields) + t) == Ok::<
            (Seq<(u8, Seq<char>)>, Seq<u8>),
            Error,
        >((fields, t)),
    decreases fields.len(),
{
    if fields.len() == 0 {
        assert(field_list_bytes(fields) + t =~= seq![0u8] + t);
        lemma_u8_round_trip(0u8, t);
        assert(fields =~= Seq::empty());
    } else {
        let f = fields[0];
        let rest = fields.drop_first();
        assert(fields =~= seq![f] + rest);
        lemma_many_bytes_front(field_writer(), f, rest);
        let after_code = text_bytes(f.1) + (field_list_bytes(rest) + t);
        assert(field_list_bytes(fields) + t =~= seq![f.0] + after_code);
        lemma_u8_round_trip(f.0, after_code);
        assert(valid_field()(f));
        lemma_text_round_trip(f.1, field_list_bytes(rest) + t);
        assert(all_valid(valid_field(), rest)) by {
            assert forall|i: int| 0 <= i < rest.len() implies valid_field()(#[trigger] rest[i]) by {
                assert(rest[i] == fields[i + 1]);
            }
        }
        lemma_field_list_round_trip(rest, t);
    }
}

/// One step of reading a list of fields: either the code 0 ends it, or a
/// field is read and a shorter list follows.
proof fn lemma_field_list_step(s: Seq<u8>)
    requires
        parse_field_list(s) is Ok,
    ensures
        parse_u8(s) is Ok,
        parse_u8(s)->Ok_0.0 == 0 ==> parse_field_list(s) == Ok::<
            (Seq<(u8, Seq<char>)>, Seq<u8>),
            Error,
        >((Seq::empty(), parse_u8(s)->Ok_0.1)),
        parse_u8(s)->Ok_0.0 != 0 ==> {
            let (code, b1) = parse_u8(s)->Ok_0;
            &&& parse_text(b1) is Ok
            &&& parse_text(b1)->Ok_0.1.len() < s.len()
            &&& parse_field_list(parse_text(b1)->Ok_0.1) is Ok
            &&& parse_field_list(s) == Ok::<(Seq<(u8, Seq<char>)>, Seq<u8>), Error>(
                (
                    seq![(code, parse_text(b1)->Ok_0.0)] + parse_field_list(
                        parse_text(b1)->Ok_0.1,
                    )->Ok_0.0,
                    parse_field_list(parse_text(b1)->Ok_0.1)->Ok_0.1,
                ),
            )
        },
{
    let (code, b1) = parse_u8(s)->Ok_0;
    if code != 0 {
        lemma_text_consumes(b1);
    }
}

/// A list of fields with one more field at its front is written as that
/// field and then the list.
proof fn lemma_field_list_front(f: (u8, Seq<char>), rest: Seq<(u8, Seq<char>)>, r: Seq<u8>)
    ensures
        field_list_bytes(seq![f] + rest) + r == seq![f.0] + (text_bytes(f.1) + (field_list_bytes(
            rest,
        ) + r)),
{
    lemma_many_bytes_front(field_writer(), f, rest);
    assert(field_writer()(f) == seq![f.0] + text_bytes(f.1));
    assert((seq![f.0] + text_bytes(f.1) + many_bytes(field_writer(), rest) + seq![0u8]) + r
        =~= seq![f.0] + (text_bytes(f.1) + ((many_bytes(field_writer(), rest) + seq![0u8]) + r)));
}

/// The bytes that a list of fields was read from are the bytes of the list
/// and what was left.
pub proof fn lemma_field_list_inverse(s: Seq<u8>)
    ensures
        parse_field_list(s) matches Ok((fields, r)) ==> s == field_list_bytes(fields) + r
            && all_valid(valid_field(), fields),
    decreases s.len(),
{
    if parse_field_list(s) is Ok {
        lemma_field_list_step(s);
        lemma_u8_inverse(s);
        let (code, b1) = parse_u8(s)->Ok_0;
        if code == 0 {
            assert(many_bytes(field_writer(), Seq::empty()) =~= Seq::<u8>::empty());
            assert(s =~= field_list_bytes(Seq::empty()) + b1);
        } else {
            lemma_text_inverse(b1);
            let (text, b2) = parse_text(b1)->Ok_0;
            lemma_field_list_inverse(b2);
            let (rest, r) = parse_field_list(b2)->Ok_0;
            lemma_field_list_front((code, text), rest, r);
            assert(valid_field()((code, text)));
            lemma_all_valid_front(valid_field(), (code, text), rest);
        }
    }
}

/// The fields of `m` with codes from 1 to `k`, in the order of their codes.
pub open spec fn fields_upto(m: Map<u8, Seq<char>>, k: nat) -> Seq<(u8, Seq<char>)>
    decreases k,
{
    if k == 0 {
        Seq::empty()
    } else {
        let before = fields_upto(m, (k - 1) as nat);
        if m.contains_key(k as u8) {
            before.push((k as u8, m[k as u8]))
        } else {
            before
        }
    }
}

/// The fields of a mapping in the order of their codes: the one list, of
/// the many that stand for the mapping, that it is written as here.
pub open spec fn fields_in_order(m: Map<u8, Seq<char>>) -> Seq<(u8, Seq<char>)> {
    fields_upto(m, 255)
}

/// The mappings that can be written: no field has the code 0, and no text
/// holds the character of code 0.
pub open spec fn valid_field_map(m: Map<u8, Seq<char>>) -> bool {
    &&& !m.contains_key(0u8)
    &&& forall|c: u8| m.contains_key(c) ==> nul_free(#[trigger] m[c])
}

/// The fields up to a code are valid fields and stand for the mapping as
/// far as that code.
proof fn lemma_fields_upto(m: Map<u8, Seq<char>>, k: nat)
    requires
        valid_field_map(m),
        k <= 255,
    ensures
        all_valid(valid_field(), fields_upto(m, k)),
        forall|c: u8|
            #[trigger] field_map_of(fields_upto(m, k)).contains_key(c) <==> m.contains_key(c) && c
                <= k,
        forall|c: u8|
            m.contains_key(c) && c <= k ==> #[trigger] field_map_of(fields_upto(m, k))[c] == m[c],
    decreases k,
{
    if k > 0 {
        lemma_fields_upto(m, (k - 1) as nat);
        let before = fields_upto(m, (k - 1) as nat);
        if m.contains_key(k as u8) {
            let f = (k as u8, m[k as u8]);
            assert(before.push(f).drop_last() =~= before);
            assert(field_map_of(before.push(f)) == field_map_of(before).insert(f.0, f.1));
            assert(nul_free(m[k as u8]));
            assert(valid_field()(f));
        }
    }
}

/// The fields of a mapping in the order of their codes stand for the mapping.
pub proof fn lemma_fields_in_order(m: Map<u8, Seq<char>>)
    requires
        valid_field_map(m),
    ensures
        all_valid(valid_field(), fields_in_order(m)),
        field_map_of(fields_in_order(m)) == m,
{
    lemma_fields_upto(m, 255);
    assert(field_map_of(fields_in_order(m)) =~= m);
}

/// The tag byte that announces a response.
pub open spec fn response_tag(m: BackendMessageView) -> u8 {
    match m {
        BackendMessageView::AuthenticationOk => TAG_AUTHENTICATION,
        BackendMessageView::BackendKeyData(..) => TAG_BACKEND_KEY_DATA,
        BackendMessageView::BindComplete => TAG_BIND_COMPLETE,
        BackendMessageView::CloseComplete => TAG_CLOSE_COMPLETE,
        BackendMessageView::CommandComplete(..) => TAG_COMMAND_COMPLETE,
        BackendMessageView::DataRow(..) => TAG_DATA_ROW,
        BackendMessageView::EmptyQueryResponse => TAG_EMPTY_QUERY_RESPONSE,
        BackendMessageView::ErrorResponse(..) => TAG_ERROR_RESPONSE,
        BackendMessageView::NoData => TAG_NO_DATA,
        BackendMessageView::NoticeResponse(..) => TAG_NOTICE_RESPONSE,
        BackendMessageView::ParameterDescription(..) => TAG_PARAMETER_DESCRIPTION,
        BackendMessageView::ParameterStatus(..) => TAG_PARAMETER_STATUS,
        BackendMessageView::ParseComplete => TAG_PARSE_COMPLETE,
        BackendMessageView::ReadyForQuery(..) => TAG_READY_FOR_QUERY,
        BackendMessageView::RowDescription(..) => TAG_ROW_DESCRIPTION,
    }
}

/// The body that a response is written as. The fields of an error or
/// notice are written in the order of their codes.
pub open spec fn response_body(m: BackendMessageView) -> Seq<u8> {
    match m {
        BackendMessageView::AuthenticationOk => be_i32(0i32),
        BackendMessageView::BackendKeyData(process_id, secret_key) => be_i32(process_id) + be_i32(
            secret_key,
        ),
        BackendMessageView::BindComplete => Seq::empty(),
        BackendMessageView::CloseComplete => Seq::empty(),
        BackendMessageView::CommandComplete(text) => text_bytes(text),
        BackendMessageView::DataRow(values) => counted_bytes(blob_writer(), values),
        BackendMessageView::EmptyQueryResponse => Seq::empty(),
        BackendMessageView::ErrorResponse(fields) => field_list_bytes(fields_in_order(fields)),
        BackendMessageView::NoData => Seq::empty(),
        BackendMessageView::NoticeResponse(fields) => field_list_bytes(fields_in_order(fields)),
        BackendMessageView::ParameterDescription(types) => counted_bytes(i32_writer(), types),
        BackendMessageView::ParameterStatus(name, value) => text_bytes(name) + text_bytes(value),
        BackendMessageView::ParseComplete => Seq::empty(),
        BackendMessageView::ReadyForQuery(status) => seq![status],
        BackendMessageView::RowDescription(entries) => counted_bytes(entry_writer(), entries),
    }
}

/// The responses that can be written so that they are read back: texts hold
/// no character of code 0, counts fit sixteen bits, blobs fit their length
/// field, no field has the code 0.
pub open spec fn valid_response(m: BackendMessageView) -> bool {
    match m {
        BackendMessageView::CommandComplete(text) => nul_free(text),
        BackendMessageView::DataRow(values) => values.len() <= i16::MAX && all_valid(
            fitting_blob(),
            values,
        ),
        BackendMessageView::ErrorResponse(fields) => valid_field_map(fields),
        BackendMessageView::NoticeResponse(fields) => valid_field_map(fields),
        BackendMessageView::ParameterDescription(types) => types.len() <= i16::MAX,
        BackendMessageView::ParameterStatus(name, value) => nul_free(name) && nul_free(value),
        BackendMessageView::RowDescription(entries) => entries.len() <= i16::MAX && all_valid(
            valid_entry(),
            entries,
        ),
        _ => true,
    }
}

/// Whether a response holds a field map, which more than one body stands for.
pub open spec fn has_field_map(m: BackendMessageView) -> bool {
    m is ErrorResponse || m is NoticeResponse
}

/// The field map that an error or notice holds.
pub open spec fn field_map_in(m: BackendMessageView) -> Map<u8, Seq<char>> {
    match m {
        BackendMessageView::ErrorResponse(fields) => fields,
        BackendMessageView::NoticeResponse(fields) => fields,
        _ => Map::empty(),
    }
}

/// A field map that was written is read back.
proof fn lemma_field_map_round_trip(m: Map<u8, Seq<char>>, t: Seq<u8>)
    requires
        valid_field_map(m),
    ensures
        parse_field_map(field_list_bytes(fields_in_order(m)) + t) == Ok::<
            (Map<u8, Seq<char>>, Seq<u8>),
            Error,
        >((m, t)),
{
    lemma_fields_in_order(m);
    lemma_field_list_round_trip(fields_in_order(m), t);
}

/// A data row that was written is read back.
proof fn lemma_data_row_round_trip(values: Seq<Option<Seq<u8>>>, t: Seq<u8>)
    requires
        values.len() <= i16::MAX,
        all_valid(fitting_blob(), values),
    ensures
        parse_data_row(counted_bytes(blob_writer(), values) + t) == Ok::<
            (BackendMessageView, Seq<u8>),
            Error,
        >((BackendMessageView::DataRow(values), t)),
{
    lemma_blob_format();
    lemma_counted_round_trip(blob_parser(), blob_writer(), fitting_blob(), values, t);
}

/// The bytes that a data row was read from are what the row is written as
/// and what was left.
proof fn lemma_data_row_inverse(s: Seq<u8>)
    ensures
        parse_data_row(s) matches Ok((m, r)) ==> m is DataRow && valid_response(m) && s
            == response_body(m) + r,
{
    lemma_blob_format();
    lemma_counted_inverse(blob_parser(), blob_writer(), fitting_blob(), s);
}

/// A parameter description that was written is read back.
proof fn lemma_parameter_description_round_trip(types: Seq<i32>, t: Seq<u8>)
    requires
        types.len() <= i16::MAX,
    ensures
        parse_parameter_description(counted_bytes(i32_writer(), types) + t) == Ok::<
            (BackendMessageView, Seq<u8>),
            Error,
        >((BackendMessageView::ParameterDescription(types), t)),
{
    lemma_i32_format();
    lemma_counted_round_trip(i32_parser(), i32_writer(), always(), types, t);
}

/// The bytes that a parameter description was read from are what it is
/// written as and what was left.
proof fn lemma_parameter_description_inverse(s: Seq<u8>)
    ensures
        parse_parameter_description(s) matches Ok((m, r)) ==> m is ParameterDescription
            && valid_response(m) && s == response_body(m) + r,
{
    lemma_i32_format();
    lemma_counted_inverse(i32_parser(), i32_writer(), always(), s);
}

/// A row description that was written is read back.
proof fn lemma_row_description_round_trip(entries: Seq<RowDescriptionEntryView>, t: Seq<u8>)
    requires
        entries.len() <= i16::MAX,
        all_valid(valid_entry(), entries),
    ensures
        parse_row_description(counted_bytes(entry_writer(), entries) + t) == Ok::<
            (BackendMessageView, Seq<u8>),
            Error,
        >((BackendMessageView::RowDescription(entries), t)),
{
    lemma_entry_format();
    lemma_counted_round_trip(entry_parser(), entry_writer(), valid_entry(), entries, t);
}

/// The bytes that a row description was read from are what it is written
/// as and what was left.
proof fn lemma_row_description_inverse(s: Seq<u8>)
    ensures
        parse_row_description(s) matches Ok((m, r)) ==> m is RowDescription && valid_response(m)
            && s == response_body(m) + r,
{
    lemma_entry_format();
    lemma_counted_inverse(entry_parser(), entry_writer(), valid_entry(), s);
}

/// The bytes that a field map was read from are what the list of fields
/// read from them is written as, and what was left; the list stands for
/// the map, which can be written.
proof fn lemma_field_map_inverse(s: Seq<u8>)
    ensures
        parse_field_map(s) matches Ok((m, r)) ==> {
            &&& parse_field_list(s) is Ok
            &&& parse_field_list(s)->Ok_0.1 == r
            &&& s == field_list_bytes(parse_field_list(s)->Ok_0.0) + r
            &&& m == field_map_of(parse_field_list(s)->Ok_0.0)
            &&& valid_field_map(m)
        },
{
    if parse_field_map(s) is Ok {
        lemma_field_list_inverse(s);
        lemma_field_map_valid(parse_field_list(s)->Ok_0.0);
    }
}

/// A response that was written is read back under its tag, whatever follows it.
pub proof fn lemma_payload_round_trip(m: BackendMessageView, t: Seq<u8>)
    requires
        valid_response(m),
    ensures
        parse_payload(response_tag(m), response_body(m) + t) == Ok::<
            (BackendMessageView, Seq<u8>),
            Error,
        >((m, t)),
{
    reveal(parse_payload);
    match m {
        BackendMessageView::AuthenticationOk => {
            lemma_i32_field_round_trip(0i32, t);
        },
        BackendMessageView::BackendKeyData(process_id, secret_key) => {
            assert(response_body(m) + t =~= be_i32(process_id) + (be_i32(secret_key) + t));
            lemma_i32_field_round_trip(process_id, be_i32(secret_key) + t);
            lemma_i32_field_round_trip(secret_key, t);
        },
        BackendMessageView::CommandComplete(text) => {
            lemma_text_round_trip(text, t);
        },
        BackendMessageView::DataRow(values) => {
            lemma_data_row_round_trip(values, t);
        },
        BackendMessageView::ErrorResponse(fields) => {
            lemma_field_map_round_trip(fields, t);
        },
        BackendMessageView::NoticeResponse(fields) => {
            lemma_field_map_round_trip(fields, t);
        },
        BackendMessageView::ParameterDescription(types) => {
            lemma_parameter_description_round_trip(types, t);
        },
        BackendMessageView::ParameterStatus(name, value) => {
            assert(response_body(m) + t =~= text_bytes(name) + (text_bytes(value) + t));
            lemma_text_round_trip(name, text_bytes(value) + t);
            lemma_text_round_trip(value, t);
        },
        BackendMessageView::ReadyForQuery(status) => {
            lemma_u8_round_trip(status, t);
        },
        BackendMessageView::RowDescription(entries) => {
            lemma_row_description_round_trip(entries, t);
        },
        _ => {
            assert(response_body(m) + t =~= t);
        },
    }
}

/// The bytes that a response was read from are its body and what was left,
/// and the tag is its tag. Of a field map this holds of the list that was
/// read, not of the mapping.
pub proof fn lemma_payload_inverse(tag: u8, s: Seq<u8>)
    ensures
        parse_payload(tag, s) matches Ok((m, r)) ==> {
            &&& tag == response_tag(m)
            &&& valid_response(m)
            &&& !has_field_map(m) ==> s == response_body(m) + r
            &&& has_field_map(m) ==> {
                &&& parse_field_list(s) is Ok
                &&& parse_field_list(s)->Ok_0.1 == r
                &&& s == field_list_bytes(parse_field_list(s)->Ok_0.0) + r
                &&& field_map_in(m) == field_map_of(parse_field_list(s)->Ok_0.0)
            }
        },
{
    reveal(parse_payload);
    if parse_payload(tag, s) is Ok {
        let (m, r) = parse_payload(tag, s)->Ok_0;
        if tag == TAG_COMMAND_COMPLETE {
            lemma_text_inverse(s);
        } else if tag == TAG_DATA_ROW {
            lemma_data_row_inverse(s);
        } else if tag == TAG_ERROR_RESPONSE || tag == TAG_NOTICE_RESPONSE {
            lemma_field_map_inverse(s);
        } else if tag == TAG_BACKEND_KEY_DATA {
            lemma_i32_field_inverse(s);
            let b1 = parse_i32(s)->Ok_0.1;
            lemma_i32_field_inverse(b1);
            assert(s =~= response_body(m) + r);
        } else if tag == TAG_AUTHENTICATION {
            lemma_i32_field_inverse(s);
        } else if tag == TAG_PARAMETER_STATUS {
            lemma_text_inverse(s);
            let b1 = parse_text(s)->Ok_0.1;
            lemma_text_inverse(b1);
            assert(s =~= response_body(m) + r);
        } else if tag == TAG_PARAMETER_DESCRIPTION {
            lemma_parameter_description_inverse(s);
        } else if tag == TAG_ROW_DESCRIPTION {
            lemma_row_description_inverse(s);
        } else if tag == TAG_READY_FOR_QUERY {
            lemma_u8_inverse(s);
        } else {
            assert(s =~= response_body(m) + r);
        }
    }
}

/// The mapping that a list of valid fields stands for can be written.
proof fn lemma_field_map_valid(fields: Seq<(u8, Seq<char>)>)
    requires
        all_valid(valid_field(), fields),
    ensures
        valid_field_map(field_map_of(fields)),
    decreases fields.len(),
{
    if fields.len() > 0 {
        let before = fields.drop_last();
        assert(all_valid(valid_field(), before)) by {
            assert forall|i: int| 0 <= i < before.len() implies valid_field()(
                #[trigger] before[i],
            ) by {
                assert(before[i] == fields[i]);
            }
        }
        lemma_field_map_valid(before);
        assert(valid_field()(fields[fields.len() - 1]));
    }
}

/// More bytes after a list of fields do not change the list that is read.
proof fn lemma_field_list_extends(s: Seq<u8>, t: Seq<u8>)
    ensures
        parse_field_list(s) matches Ok((fields, r)) ==> parse_field_list(s + t) == Ok::<
            (Seq<(u8, Seq<char>)>, Seq<u8>),
            Error,
        >((fields, r + t)),
{
    if parse_field_list(s) is Ok {
        let (fields, r) = parse_field_list(s)->Ok_0;
        lemma_field_list_inverse(s);
        lemma_field_list_round_trip(fields, r + t);
        assert(s + t =~= field_list_bytes(fields) + (r + t));
    }
}

/// More bytes after a response do not change the response that is read:
/// they are left over, after what was left over before.
pub proof fn lemma_payload_extends(tag: u8, s: Seq<u8>, t: Seq<u8>)
    ensures
        parse_payload(tag, s) matches Ok((m, r)) ==> parse_payload(tag, s + t) == Ok::<
            (BackendMessageView, Seq<u8>),
            Error,
        >((m, r + t)),
{
    if parse_payload(tag, s) is Ok {
        let (m, r) = parse_payload(tag, s)->Ok_0;
        lemma_payload_inverse(tag, s);
        if has_field_map(m) {
            reveal(parse_payload);
            lemma_field_list_extends(s, t);
        } else {
            lemma_payload_round_trip(m, r + t);
            assert(s + t =~= response_body(m) + (r + t));
        }
    }
}

/// Decoding what a response is written as gives the response back: every
/// response that can be written is read back from its own body under its
/// own tag.
pub proof fn lemma_response_round_trip(m: BackendMessageView)
    requires
        valid_response(m),
    ensures
        parse_body(response_tag(m), response_body(m)) == Ok::<BackendMessageView, Error>(m),
{
    lemma_payload_round_trip(m, Seq::empty());
    assert(response_body(m) + Seq::empty() =~= response_body(m));
}

/// Writing what a body was decoded to gives the body back: a body that
/// holds a response under a tag is the body that this response is written
/// as, and the tag is its tag. A body that holds a field map is what the
/// list of fields read from it is written as, in the order in which they
/// stand in the body, and the map is the one that this list stands for.
pub proof fn lemma_response_inverse(tag: u8, body: Seq<u8>)
    ensures
        parse_body(tag, body) matches Ok(m) ==> {
            &&& tag == response_tag(m)
            &&& valid_response(m)
            &&& !has_field_map(m) ==> body == response_body(m)
            &&& has_field_map(m) ==> {
                &&& parse_field_list(body) is Ok
                &&& body == field_list_bytes(parse_field_list(body)->Ok_0.0)
                &&& field_map_in(m) == field_map_of(parse_field_list(body)->Ok_0.0)
            }
        },
{
    if parse_body(tag, body) is Ok {
        let m = parse_body(tag, body)->Ok_0;
        lemma_payload_inverse(tag, body);
        if has_field_map(m) {
            let fields = parse_field_list(body)->Ok_0.0;
            assert(field_list_bytes(fields) + Seq::empty() =~= field_list_bytes(fields));
        } else {
            assert(response_body(m) + Seq::empty() =~= response_body(m));
        }
    }
}

/// A body holds its response exactly: with one byte more at its end it is
/// refused for the byte left over, and with its last byte taken away it is
/// refused too, whatever the tag.
pub proof fn lemma_body_is_exact(tag: u8, body: Seq<u8>, extra: u8)
    requires
        parse_body(tag, body) is Ok,
    ensures
        parse_body(tag, body.push(extra)) == Err::<BackendMessageView, Error>(
            Error::TrailingBytes,
        ),
        body.len() > 0 ==> parse_body(tag, body.drop_last()) is Err,
{
    lemma_payload_extends(tag, body, seq![extra]);
    assert(body + seq![extra] =~= body.push(extra));
    if body.len() > 0 {
        let shorter = body.drop_last();
        if parse_body(tag, shorter) is Ok {
            lemma_payload_extends(tag, shorter, seq![body.last()]);
            assert(shorter + seq![body.last()] =~= body);
        }
    }
}

/// The frame of a response that can be written, whose body is not too long
/// for the length field, is read back as that response, and what follows
/// the frame is left.
pub proof fn lemma_frame_round_trip(m: BackendMessageView, t: Seq<u8>)
    requires
        valid_response(m),
        response_body(m).len() + 4 <= i32::MAX,
    ensures
        parse_frame(frame(Some(response_tag(m)), response_body(m)) + t) == Ok::<
            (BackendMessageView, Seq<u8>),
            Error,
        >((m, t)),
{
    lemma_split_frame_round_trip(response_tag(m), response_body(m), t);
    lemma_response_round_trip(m);
}

/// Bytes that start with the frame of a response are the frame that this
/// response is written as, and what was left; for a response with a field
/// map this holds of the frame around the body that was read.
pub proof fn lemma_frame_inverse(s: Seq<u8>)
    ensures
        parse_frame(s) matches Ok((m, r)) ==> {
            &&& split_frame(s) is Ok
            &&& split_frame(s)->Ok_0.0.0 == response_tag(m)
            &&& s == frame(Some(response_tag(m)), split_frame(s)->Ok_0.0.1) + r
            &&& valid_response(m)
            &&& !has_field_map(m) ==> s == frame(Some(response_tag(m)), response_body(m)) + r
        },
{
    if parse_frame(s) is Ok {
        lemma_split_frame_inverse(s);
        let ((tag, body), r) = split_frame(s)->Ok_0;
        lemma_response_inverse(tag, body);
    }
}

/// A tag that announces no known response is refused as such, whatever the
/// body holds, and no other tag is.
pub proof fn lemma_unknown_tag(tag: u8, body: Seq<u8>)
    ensures
        !known_tag(tag) ==> parse_body(tag, body) == Err::<BackendMessageView, Error>(
            Error::UnknownMessage(tag),
        ),
        known_tag(tag) ==> !(parse_body(tag, body) matches Err(Error::UnknownMessage(_))),
{
    reveal(parse_payload);
    reveal(parse_text);
    if known_tag(tag) {
        lemma_no_unknown_message(tag, body);
    }
}

/// Under a known tag, reading a body never fails for an unknown tag.
proof fn lemma_no_unknown_message(tag: u8, body: Seq<u8>)
    requires
        known_tag(tag),
    ensures
        !(parse_payload(tag, body) matches Err(Error::UnknownMessage(_))),
{
    reveal(parse_payload);
    reveal(parse_text);
    if tag == TAG_DATA_ROW {
        lemma_counted_fails_as_its_field(blob_parser(), body);
    } else if tag == TAG_PARAMETER_DESCRIPTION {
        lemma_counted_fails_as_its_field(i32_parser(), body);
    } else if tag == TAG_ROW_DESCRIPTION {
        lemma_counted_fails_as_its_field(entry_parser(), body);
    } else if tag == TAG_ERROR_RESPONSE || tag == TAG_NOTICE_RESPONSE {
        lemma_field_list_errors(body);
    }
}

/// Reading a list of fields never fails for an unknown tag.
proof fn lemma_field_list_errors(s: Seq<u8>)
    ensures
        !(parse_field_list(s) matches Err(Error::UnknownMessage(_))),
    decreases s.len(),
{
    reveal(parse_text);
    if parse_u8(s) is Ok && parse_u8(s)->Ok_0.0 != 0 {
        let b1 = parse_u8(s)->Ok_0.1;
        if parse_text(b1) is Ok {
            lemma_text_consumes(b1);
            lemma_field_list_errors(parse_text(b1)->Ok_0.1);
        }
    }
}

/// A frame with a tag that announces no known response is refused for its
/// tag, and it is a whole frame all the same: what follows it is what is
/// left, so that a reader of it stops where the frame ends.
pub proof fn lemma_unknown_tag_frame(tag: u8, body: Seq<u8>, rest: Seq<u8>)
    requires
        !known_tag(tag),
        body.len() + 4 <= i32::MAX,
    ensures
        split_frame(frame(Some(tag), body) + rest) == Ok::<((u8, Seq<u8>), Seq<u8>), Error>(
            ((tag, body), rest),
        ),
        parse_frame(frame(Some(tag), body) + rest) == Err::<(BackendMessageView, Seq<u8>), Error>(
            Error::UnknownMessage(tag),
        ),
{
    lemma_split_frame_round_trip(tag, body, rest);
    lemma_unknown_tag(tag, body);
}

} // verus!
