//! The laws of the commands: how a command is read back from what it is
//! written as, and that this gives the command that was written.

use crate::bytes::be_i32;
use crate::command::{command_body, command_frame, command_tag, param_writer};
use crate::error::Error;
use crate::laws::primitive::{
    lemma_i32_field_inverse, lemma_i32_field_round_trip, lemma_split_frame_round_trip,
    lemma_text_inverse, lemma_text_round_trip, lemma_u8_inverse, lemma_u8_round_trip,
    lemma_untagged_frame,
};
use crate::laws::repeat::{
    all_valid, fitting_blob, lemma_all_valid_front, lemma_blob_format, lemma_counted_inverse,
    lemma_counted_round_trip, lemma_i16_format, lemma_i32_format,
};
use crate::laws::always;
use crate::message::{
    FrontendMessageView, PROTOCOL_VERSION, TAG_BIND, TAG_CLOSE, TAG_DESCRIBE, TAG_EXECUTE,
    TAG_PARSE, TAG_QUERY, TAG_SYNC, TAG_TERMINATE,
};
use crate::repeat::{counted_bytes, lemma_many_bytes_front, many_bytes, parse_counted};
use crate::response::complete;
use crate::wire::{
    blob_parser, blob_writer, i16_parser, i16_writer, i32_parser, i32_writer, lemma_text_consumes,
    nul_free, parse_i32, parse_text, parse_u8, split_frame, text_bytes, Parsed,
};
use vstd::prelude::*;

verus! {

/// The parameters that the rest of the body of a startup message holds: a
/// name and a value each, up to the last byte of the body, which is the
/// zero byte that ends the list. The end of the list is told by the end
/// of the body, so that a name may be empty.
pub open spec fn parse_params(b: Seq<u8>) -> Result<Seq<(Seq<char>, Seq<char>)>, Error>
    decreases b.len(),
{
    if b.len() == 1 && b[0] == 0 {
        Ok(Seq::empty())
    } else {
        match parse_text(b) {
            Err(e) => Err(e),
            Ok((name, b1)) => match parse_text(b1) {
                Err(e) => Err(e),
                Ok((value, b2)) => {
                    proof {
                        lemma_text_consumes(b);
                        lemma_text_consumes(b1);
                    }
                    match parse_params(b2) {
                        Err(e) => Err(e),
                        Ok(rest) => Ok(seq![(name, value)] + rest),
                    }
                },
            },
        }
    }
}

/// The body of a Bind command: two texts and three counted lists.
pub open spec fn parse_bind(b: Seq<u8>) -> Parsed<FrontendMessageView> {
    match parse_text(b) {
        Err(e) => Err(e),
        Ok((portal, b1)) => match parse_text(b1) {
            Err(e) => Err(e),
            Ok((statement, b2)) => match parse_counted(i16_parser(), b2) {
                Err(e) => Err(e),
                Ok((formats, b3)) => match parse_counted(blob_parser(), b3) {
                    Err(e) => Err(e),
                    Ok((values, b4)) => match parse_counted(i16_parser(), b4) {
                        Err(e) => Err(e),
                        Ok((result_formats, rest)) => Ok(
                            (
                                FrontendMessageView::Bind(
                                    portal,
                                    statement,
                                    formats,
                                    values,
                                    result_formats,
                                ),
                                rest,
                            ),
                        ),
                    },
                },
            },
        },
    }
}

/// The body of a Parse command: two texts and a counted list.
pub open spec fn parse_parse(b: Seq<u8>) -> Parsed<FrontendMessageView> {
    match parse_text(b) {
        Err(e) => Err(e),
        Ok((name, b1)) => match parse_text(b1) {
            Err(e) => Err(e),
            Ok((query, b2)) => match parse_counted(i32_parser(), b2) {
                Err(e) => Err(e),
                Ok((types, rest)) => Ok((FrontendMessageView::Parse(name, query, types), rest)),
            },
        },
    }
}

/// A kind selector and a name, as Close and Describe hold them.
pub open spec fn parse_kind_and_name(b: Seq<u8>) -> Parsed<(u8, Seq<char>)> {
    match parse_u8(b) {
        Err(e) => Err(e),
        Ok((kind, b1)) => match parse_text(b1) {
            Err(e) => Err(e),
            Ok((name, rest)) => Ok(((kind, name), rest)),
        },
    }
}

/// The command that the front of `b` holds under `tag`, and what of `b`
/// follows it.
#[verifier::opaque]
pub open spec fn parse_command_payload(tag: u8, b: Seq<u8>) -> Parsed<FrontendMessageView> {
    if tag == TAG_BIND {
        parse_bind(b)
    } else if tag == TAG_CLOSE {
        match parse_kind_and_name(b) {
            Err(e) => Err(e),
            Ok(((kind, name), rest)) => Ok((FrontendMessageView::Close(kind, name), rest)),
        }
    } else if tag == TAG_DESCRIBE {
        match parse_kind_and_name(b) {
            Err(e) => Err(e),
            Ok(((kind, name), rest)) => Ok((FrontendMessageView::Describe(kind, name), rest)),
        }
    } else if tag == TAG_EXECUTE {
        match parse_text(b) {
            Err(e) => Err(e),
            Ok((portal, b1)) => match parse_i32(b1) {
                Err(e) => Err(e),
                Ok((rows, rest)) => Ok((FrontendMessageView::Execute(portal, rows), rest)),
            },
        }
    } else if tag == TAG_PARSE {
        parse_parse(b)
    } else if tag == TAG_QUERY {
        match parse_text(b) {
            Err(e) => Err(e),
            Ok((query, rest)) => Ok((FrontendMessageView::Query(query), rest)),
        }
    } else if tag == TAG_SYNC {
        Ok((FrontendMessageView::Sync, b))
    } else if tag == TAG_TERMINATE {
        Ok((FrontendMessageView::Terminate, b))
    } else {
        Err(Error::UnknownMessage(tag))
    }
}

/// The command that the body `body` holds under `tag`.
pub open spec fn parse_command_body(tag: u8, body: Seq<u8>) -> Result<FrontendMessageView, Error> {
    complete(parse_command_payload(tag, body))
}

/// The command whose frame the front of `b` is, and what of `b` follows the
/// frame.
pub open spec fn parse_command_frame(b: Seq<u8>) -> Parsed<FrontendMessageView> {
    match split_frame(b) {
        Err(e) => Err(e),
        Ok(((tag, body), rest)) => match parse_command_body(tag, body) {
            Err(e) => Err(e),
            Ok(m) => Ok((m, rest)),
        },
    }
}

/// The version and the parameters that the body of a startup message holds.
pub open spec fn parse_startup_body(body: Seq<u8>) -> Result<
    (i32, Seq<(Seq<char>, Seq<char>)>),
    Error,
> {
    match parse_i32(body) {
        Err(e) => Err(e),
        Ok((version, b1)) => match parse_params(b1) {
            Err(e) => Err(e),
            Ok(params) => Ok((version, params)),
        },
    }
}

/// The version and the parameters of the startup message whose frame the
/// front of `b` is, and what of `b` follows the frame: a length that
/// counts its own four bytes and the body, and the body. No tag comes
/// first.
pub open spec fn parse_startup_frame(b: Seq<u8>) -> Parsed<(i32, Seq<(Seq<char>, Seq<char>)>)> {
    match parse_i32(b) {
        Err(e) => Err(e),
        Ok((length, b1)) => if length < 4 {
            Err(Error::InvalidLength)
        } else if b1.len() < length - 4 {
            Err(Error::UnexpectedEof)
        } else {
            match parse_startup_body(b1.take(length - 4)) {
                Err(e) => Err(e),
                Ok(v) => Ok((v, b1.skip(length - 4))),
            }
        },
    }
}

/// The parameters that can be written: no character of code 0 in name or
/// value.
pub open spec fn valid_param() -> spec_fn((Seq<char>, Seq<char>)) -> bool {
    |p: (Seq<char>, Seq<char>)| nul_free(p.0) && nul_free(p.1)
}

/// The commands that can be written so that they are read back: texts hold
/// no character of code 0, counts fit sixteen bits, blobs fit their length
/// field.
pub open spec fn valid_command(m: FrontendMessageView) -> bool {
    match m {
        FrontendMessageView::Bind(portal, statement, formats, values, result_formats) => {
            &&& nul_free(portal)
            &&& nul_free(statement)
            &&& formats.len() <= i16::MAX
            &&& values.len() <= i16::MAX
            &&& all_valid(fitting_blob(), values)
            &&& result_formats.len() <= i16::MAX
        },
        FrontendMessageView::Close(_, name) => nul_free(name),
        FrontendMessageView::Describe(_, name) => nul_free(name),
        FrontendMessageView::Execute(portal, _) => nul_free(portal),
        FrontendMessageView::Parse(name, query, types) => {
            &&& nul_free(name)
            &&& nul_free(query)
            &&& types.len() <= i16::MAX
        },
        FrontendMessageView::Query(query) => nul_free(query),
        FrontendMessageView::StartupMessage(params) => all_valid(valid_param(), params),
        FrontendMessageView::Sync => true,
        FrontendMessageView::Terminate => true,
    }
}

/// What a list of startup parameters is written as: the parameters, then a
/// zero byte.
pub open spec fn params_bytes(params: Seq<(Seq<char>, Seq<char>)>) -> Seq<u8> {
    many_bytes(param_writer(), params) + seq![0u8]
}

/// A list of parameters with one more at its front is written as that
/// parameter and then the list.
proof fn lemma_params_front(p: (Seq<char>, Seq<char>), rest: Seq<(Seq<char>, Seq<char>)>)
    ensures
        params_bytes(seq![p] + rest) == text_bytes(p.0) + (text_bytes(p.1) + params_bytes(rest)),
        params_bytes(seq![p] + rest).len() >= 3,
{
    lemma_many_bytes_front(param_writer(), p, rest);
    assert(param_writer()(p) == text_bytes(p.0) + text_bytes(p.1));
    assert((text_bytes(p.0) + text_bytes(p.1)) + many_bytes(param_writer(), rest) + seq![0u8]
        =~= text_bytes(p.0) + (text_bytes(p.1) + (many_bytes(param_writer(), rest) + seq![0u8])));
}

/// A list of parameters that was written is read back, empty names and
/// empty values among them.
pub proof fn lemma_params_round_trip(params: Seq<(Seq<char>, Seq<char>)>)
    requires
        all_valid(valid_param(), params),
    ensures
        parse_params(params_bytes(params)) == Ok::<Seq<(Seq<char>, Seq<char>)>, Error>(params),
    decreases params.len(),
{
    if params.len() == 0 {
        assert(params_bytes(params) =~= seq![0u8]);
        assert(params =~= Seq::empty());
    } else {
        let p = params[0];
        let rest = params.drop_first();
        assert(params =~= seq![p] + rest);
        lemma_params_front(p, rest);
        assert(valid_param()(p));
        lemma_text_round_trip(p.0, text_bytes(p.1) + params_bytes(rest));
        lemma_text_round_trip(p.1, params_bytes(rest));
        assert(all_valid(valid_param(), rest)) by {
            assert forall|i: int| 0 <= i < rest.len() implies valid_param()(#[trigger] rest[i]) by {
                assert(rest[i] == params[i + 1]);
            }
        }
        lemma_params_round_trip(rest);
    }
}

/// One step of reading a list of parameters: either the one zero byte that
/// is left ends it, or a parameter is read and a shorter list follows.
proof fn lemma_params_step(s: Seq<u8>)
    requires
        parse_params(s) is Ok,
    ensures
        s.len() == 1 && s[0] == 0 ==> parse_params(s) == Ok::<
            Seq<(Seq<char>, Seq<char>)>,
            Error,
        >(Seq::empty()),
        !(s.len() == 1 && s[0] == 0) ==> {
            &&& parse_text(s) is Ok
            &&& parse_text(parse_text(s)->Ok_0.1) is Ok
            &&& parse_text(parse_text(s)->Ok_0.1)->Ok_0.1.len() < s.len()
            &&& parse_params(parse_text(parse_text(s)->Ok_0.1)->Ok_0.1) is Ok
            &&& parse_params(s) == Ok::<Seq<(Seq<char>, Seq<char>)>, Error>(
                seq![(parse_text(s)->Ok_0.0, parse_text(parse_text(s)->Ok_0.1)->Ok_0.0)]
                    + parse_params(parse_text(parse_text(s)->Ok_0.1)->Ok_0.1)->Ok_0,
            )
        },
{
    if !(s.len() == 1 && s[0] == 0) {
        lemma_text_consumes(s);
        lemma_text_consumes(parse_text(s)->Ok_0.1);
    }
}

/// The bytes that a list of parameters was read from are the bytes that
/// the list is written as.
pub proof fn lemma_params_inverse(s: Seq<u8>)
    ensures
        parse_params(s) matches Ok(params) ==> s == params_bytes(params) && all_valid(
            valid_param(),
            params,
        ),
    decreases s.len(),
{
    if parse_params(s) is Ok {
        lemma_params_step(s);
        if s.len() == 1 && s[0] == 0 {
            assert(many_bytes(param_writer(), Seq::empty()) =~= Seq::<u8>::empty());
            assert(s =~= params_bytes(Seq::empty()));
        } else {
            lemma_text_inverse(s);
            let (name, b1) = parse_text(s)->Ok_0;
            lemma_text_inverse(b1);
            let (value, b2) = parse_text(b1)->Ok_0;
            lemma_params_inverse(b2);
            let rest = parse_params(b2)->Ok_0;
            lemma_params_front((name, value), rest);
            assert(valid_param()((name, value)));
            lemma_all_valid_front(valid_param(), (name, value), rest);
        }
    }
}

/// A Bind body that was written is read back.
proof fn lemma_bind_round_trip(m: FrontendMessageView, t: Seq<u8>)
    requires
        m is Bind,
        valid_command(m),
    ensures
        parse_bind(command_body(m) + t) == Ok::<(FrontendMessageView, Seq<u8>), Error>((m, t)),
{
    let portal = m->Bind_0;
    let statement = m->Bind_1;
    let formats = m->Bind_2;
    let values = m->Bind_3;
    let result_formats = m->Bind_4;
    let b4 = counted_bytes(i16_writer(), result_formats) + t;
    let b3 = counted_bytes(blob_writer(), values) + b4;
    let b2 = counted_bytes(i16_writer(), formats) + b3;
    let b1 = text_bytes(statement) + b2;
    assert(command_body(m) + t =~= text_bytes(portal) + b1);
    lemma_text_round_trip(portal, b1);
    lemma_text_round_trip(statement, b2);
    lemma_i16_format();
    lemma_blob_format();
    lemma_counted_round_trip(i16_parser(), i16_writer(), always(), formats, b3);
    lemma_counted_round_trip(blob_parser(), blob_writer(), fitting_blob(), values, b4);
    lemma_counted_round_trip(i16_parser(), i16_writer(), always(), result_formats, t);
}

/// The bytes that a Bind body was read from are what it is written as and
/// what was left.
proof fn lemma_bind_inverse(s: Seq<u8>)
    ensures
        parse_bind(s) matches Ok((m, r)) ==> m is Bind && valid_command(m) && s == command_body(m)
            + r,
{
    if parse_bind(s) is Ok {
        let (m, r) = parse_bind(s)->Ok_0;
        lemma_text_inverse(s);
        let b1 = parse_text(s)->Ok_0.1;
        lemma_text_inverse(b1);
        let b2 = parse_text(b1)->Ok_0.1;
        lemma_i16_format();
        lemma_blob_format();
        lemma_counted_inverse(i16_parser(), i16_writer(), always(), b2);
        let b3 = parse_counted(i16_parser(), b2)->Ok_0.1;
        lemma_counted_inverse(blob_parser(), blob_writer(), fitting_blob(), b3);
        let b4 = parse_counted(blob_parser(), b3)->Ok_0.1;
        lemma_counted_inverse(i16_parser(), i16_writer(), always(), b4);
        assert(s =~= command_body(m) + r);
    }
}

/// A Parse body that was written is read back.
proof fn lemma_parse_round_trip(m: FrontendMessageView, t: Seq<u8>)
    requires
        m is Parse,
        valid_command(m),
    ensures
        parse_parse(command_body(m) + t) == Ok::<(FrontendMessageView, Seq<u8>), Error>((m, t)),
{
    let name = m->Parse_0;
    let query = m->Parse_1;
    let types = m->Parse_2;
    let b2 = counted_bytes(i32_writer(), types) + t;
    let b1 = text_bytes(query) + b2;
    assert(command_body(m) + t =~= text_bytes(name) + b1);
    lemma_text_round_trip(name, b1);
    lemma_text_round_trip(query, b2);
    lemma_i32_format();
    lemma_counted_round_trip(i32_parser(), i32_writer(), always(), types, t);
}

/// The bytes that a Parse body was read from are what it is written as and
/// what was left.
proof fn lemma_parse_inverse(s: Seq<u8>)
    ensures
        parse_parse(s) matches Ok((m, r)) ==> m is Parse && valid_command(m) && s == command_body(
            m,
        ) + r,
{
    if parse_parse(s) is Ok {
        let (m, r) = parse_parse(s)->Ok_0;
        lemma_text_inverse(s);
        let b1 = parse_text(s)->Ok_0.1;
        lemma_text_inverse(b1);
        let b2 = parse_text(b1)->Ok_0.1;
        lemma_i32_format();
        lemma_counted_inverse(i32_parser(), i32_writer(), always(), b2);
        assert(s =~= command_body(m) + r);
    }
}

/// A command that was written is read back under its tag, whatever follows
/// it. A startup message has no tag and is read by its own rule.
pub proof fn lemma_command_payload_round_trip(m: FrontendMessageView, t: Seq<u8>)
    requires
        valid_command(m),
        m !is StartupMessage,
    ensures
        command_tag(m) is Some,
        parse_command_payload(command_tag(m)->Some_0, command_body(m) + t) == Ok::<
            (FrontendMessageView, Seq<u8>),
            Error,
        >((m, t)),
{
    reveal(parse_command_payload);
    match m {
        FrontendMessageView::Bind(..) => {
            lemma_bind_round_trip(m, t);
        },
        FrontendMessageView::Close(kind, name) => {
            assert(command_body(m) + t =~= seq![kind] + (text_bytes(name) + t));
            lemma_u8_round_trip(kind, text_bytes(name) + t);
            lemma_text_round_trip(name, t);
        },
        FrontendMessageView::Describe(kind, name) => {
            assert(command_body(m) + t =~= seq![kind] + (text_bytes(name) + t));
            lemma_u8_round_trip(kind, text_bytes(name) + t);
            lemma_text_round_trip(name, t);
        },
        FrontendMessageView::Execute(portal, rows) => {
            assert(command_body(m) + t =~= text_bytes(portal) + (be_i32(rows) + t));
            lemma_text_round_trip(portal, be_i32(rows) + t);
            lemma_i32_field_round_trip(rows, t);
        },
        FrontendMessageView::Parse(..) => {
            lemma_parse_round_trip(m, t);
        },
        FrontendMessageView::Query(query) => {
            lemma_text_round_trip(query, t);
        },
        _ => {
            assert(command_body(m) + t =~= t);
        },
    }
}

/// The bytes that a command was read from are its body and what was left,
/// and the tag is its tag.
pub proof fn lemma_command_payload_inverse(tag: u8, s: Seq<u8>)
    ensures
        parse_command_payload(tag, s) matches Ok((m, r)) ==> {
            &&& command_tag(m) == Some(tag)
            &&& valid_command(m)
            &&& s == command_body(m) + r
        },
{
    reveal(parse_command_payload);
    if parse_command_payload(tag, s) is Ok {
        let (m, r) = parse_command_payload(tag, s)->Ok_0;
        if tag == TAG_BIND {
            lemma_bind_inverse(s);
        } else if tag == TAG_CLOSE || tag == TAG_DESCRIBE {
            lemma_u8_inverse(s);
            lemma_text_inverse(parse_u8(s)->Ok_0.1);
            assert(s =~= command_body(m) + r);
        } else if tag == TAG_EXECUTE {
            lemma_text_inverse(s);
            lemma_i32_field_inverse(parse_text(s)->Ok_0.1);
            assert(s =~= command_body(m) + r);
        } else if tag == TAG_PARSE {
            lemma_parse_inverse(s);
        } else if tag == TAG_QUERY {
            lemma_text_inverse(s);
        } else {
            assert(s =~= command_body(m) + r);
        }
    }
}

/// Decoding what a command is written as gives the command back: the frame
/// of every command that can be written, whose body is not too long for
/// the length field, is read back as that command, and what follows the
/// frame is left.
pub proof fn lemma_command_round_trip(m: FrontendMessageView, t: Seq<u8>)
    requires
        valid_command(m),
        m !is StartupMessage,
        command_body(m).len() + 4 <= i32::MAX,
    ensures
        parse_command_frame(command_frame(m) + t) == Ok::<(FrontendMessageView, Seq<u8>), Error>(
            (m, t),
        ),
{
    lemma_command_payload_round_trip(m, Seq::empty());
    assert(command_body(m) + Seq::empty() =~= command_body(m));
    lemma_split_frame_round_trip(command_tag(m)->Some_0, command_body(m), t);
}

/// Writing what a frame was decoded to gives the frame back: bytes that
/// start with the frame of a command are the frame that this command is
/// written as, and what was left.
pub proof fn lemma_command_inverse(s: Seq<u8>)
    ensures
        parse_command_frame(s) matches Ok((m, r)) ==> valid_command(m) && s == command_frame(m)
            + r,
{
    if parse_command_frame(s) is Ok {
        crate::laws::primitive::lemma_split_frame_inverse(s);
        let ((tag, body), r) = split_frame(s)->Ok_0;
        lemma_command_payload_inverse(tag, body);
        let m = parse_command_body(tag, body)->Ok_0;
        assert(command_body(m) + Seq::empty() =~= command_body(m));
    }
}

/// The body of a startup message that was written holds the protocol
/// version and the parameters that were written, in their order.
pub proof fn lemma_startup_round_trip(params: Seq<(Seq<char>, Seq<char>)>)
    requires
        all_valid(valid_param(), params),
    ensures
        parse_startup_body(command_body(FrontendMessageView::StartupMessage(params))) == Ok::<
            (i32, Seq<(Seq<char>, Seq<char>)>),
            Error,
        >((PROTOCOL_VERSION, params)),
{
    let body = command_body(FrontendMessageView::StartupMessage(params));
    assert(body =~= be_i32(PROTOCOL_VERSION) + params_bytes(params));
    lemma_i32_field_round_trip(PROTOCOL_VERSION, params_bytes(params));
    lemma_params_round_trip(params);
}

/// A body that holds the protocol version and a list of parameters is the
/// body that the startup message with those parameters is written as.
pub proof fn lemma_startup_inverse(body: Seq<u8>)
    ensures
        parse_startup_body(body) matches Ok((version, params)) ==> all_valid(
            valid_param(),
            params,
        ) && (version == PROTOCOL_VERSION ==> body == command_body(
            FrontendMessageView::StartupMessage(params),
        )),
{
    if parse_startup_body(body) is Ok {
        lemma_i32_field_inverse(body);
        let (version, b1) = parse_i32(body)->Ok_0;
        lemma_params_inverse(b1);
        let params = parse_params(b1)->Ok_0;
        assert(body =~= be_i32(version) + many_bytes(param_writer(), params) + seq![0u8]);
    }
}

/// The frame of a startup message that was written is read back as the
/// protocol version and the parameters that were written, and what follows
/// the frame is left.
pub proof fn lemma_startup_frame_round_trip(params: Seq<(Seq<char>, Seq<char>)>, t: Seq<u8>)
    requires
        all_valid(valid_param(), params),
        command_body(FrontendMessageView::StartupMessage(params)).len() + 4 <= i32::MAX,
    ensures
        parse_startup_frame(command_frame(FrontendMessageView::StartupMessage(params)) + t) == Ok::<
            ((i32, Seq<(Seq<char>, Seq<char>)>), Seq<u8>),
            Error,
        >(((PROTOCOL_VERSION, params), t)),
{
    let m = FrontendMessageView::StartupMessage(params);
    let body = command_body(m);
    let length = (body.len() + 4) as i32;
    lemma_untagged_frame(body);
    assert(command_frame(m) + t =~= be_i32(length) + (body + t));
    lemma_i32_field_round_trip(length, body + t);
    assert((body + t).take(length - 4) =~= body);
    assert((body + t).skip(length - 4) =~= t);
    lemma_startup_round_trip(params);
}

/// What it is for `bytes` to be read as the command `m` and nothing more:
/// by the rule for frames with a tag, or, for a startup message, by the
/// rule for the frame without one.
pub open spec fn reads_as(bytes: Seq<u8>, m: FrontendMessageView) -> bool {
    match m {
        FrontendMessageView::StartupMessage(params) => parse_startup_frame(bytes) == Ok::<
            ((i32, Seq<(Seq<char>, Seq<char>)>), Seq<u8>),
            Error,
        >(((PROTOCOL_VERSION, params), Seq::empty())),
        _ => parse_command_frame(bytes) == Ok::<(FrontendMessageView, Seq<u8>), Error>(
            (m, Seq::empty()),
        ),
    }
}

/// Every command that can be written, of whatever kind, is read back from
/// its frame, which is used up: the same texts, integers and values at the
/// same places, absent values absent, parameters in their order.
pub proof fn lemma_every_command_round_trips(m: FrontendMessageView)
    requires
        valid_command(m),
        command_body(m).len() + 4 <= i32::MAX,
    ensures
        reads_as(command_frame(m), m),
{
    assert(command_frame(m) + Seq::empty() =~= command_frame(m));
    match m {
        FrontendMessageView::StartupMessage(params) => {
            lemma_startup_frame_round_trip(params, Seq::empty());
        },
        _ => {
            lemma_command_round_trip(m, Seq::empty());
        },
    }
}

/// Two commands that are written as the same frame are the same command:
/// for commands that can be written, both startup messages or neither.
pub proof fn lemma_command_frame_injective(a: FrontendMessageView, b: FrontendMessageView)
    requires
        valid_command(a),
        valid_command(b),
        command_body(a).len() + 4 <= i32::MAX,
        command_body(b).len() + 4 <= i32::MAX,
        a is StartupMessage <==> b is StartupMessage,
        command_frame(a) == command_frame(b),
    ensures
        a == b,
{
    lemma_every_command_round_trips(a);
    lemma_every_command_round_trips(b);
}

} // verus!
