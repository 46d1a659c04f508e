//! Commands as frames: a tag byte, a length, a body.

use crate::bytes::{be_i32, wrap_i16};
use crate::message::{
    params_view, FrontendMessage, FrontendMessageView, PROTOCOL_VERSION, TAG_BIND, TAG_CLOSE,
    TAG_DESCRIBE, TAG_EXECUTE, TAG_PARSE, TAG_QUERY, TAG_SYNC, TAG_TERMINATE,
};
use crate::repeat::{counted_bytes, lemma_many_bytes_push, many_bytes};
use crate::wire::{blob_writer, frame, i16_writer, i32_writer, text_bytes};
use crate::writer::{
    length_i32, write_be_i16, write_be_i32, write_blob, write_bytes, write_string, write_u8,
};
use vstd::prelude::*;

verus! {

/// How a startup parameter is written, as a function: its name, then its value.
pub open spec fn param_writer() -> spec_fn((Seq<char>, Seq<char>)) -> Seq<u8> {
    |p: (Seq<char>, Seq<char>)| text_bytes(p.0) + text_bytes(p.1)
}

/// The tag byte that announces a command; a startup message has none.
pub open spec fn command_tag(m: FrontendMessageView) -> Option<u8> {
    match m {
        FrontendMessageView::Bind(..) => Some(TAG_BIND),
        FrontendMessageView::Close(..) => Some(TAG_CLOSE),
        FrontendMessageView::Describe(..) => Some(TAG_DESCRIBE),
        FrontendMessageView::Execute(..) => Some(TAG_EXECUTE),
        FrontendMessageView::Parse(..) => Some(TAG_PARSE),
        FrontendMessageView::Query(..) => Some(TAG_QUERY),
        FrontendMessageView::StartupMessage(..) => None,
        FrontendMessageView::Sync => Some(TAG_SYNC),
        FrontendMessageView::Terminate => Some(TAG_TERMINATE),
    }
}

/// The body of a command: its fields in order, integers big-endian.
pub open spec fn command_body(m: FrontendMessageView) -> Seq<u8> {
    match m {
        FrontendMessageView::Bind(portal, statement, formats, values, result_formats) => {
            text_bytes(portal) + text_bytes(statement) + counted_bytes(i16_writer(), formats)
                + counted_bytes(blob_writer(), values) + counted_bytes(
                i16_writer(),
                result_formats,
            )
        },
        FrontendMessageView::Close(kind, name) => seq![kind] + text_bytes(name),
        FrontendMessageView::Describe(kind, name) => seq![kind] + text_bytes(name),
        FrontendMessageView::Execute(portal, rows) => text_bytes(portal) + be_i32(rows),
        FrontendMessageView::Parse(name, query, types) => {
            text_bytes(name) + text_bytes(query) + counted_bytes(i32_writer(), types)
        },
        FrontendMessageView::Query(query) => text_bytes(query),
        FrontendMessageView::StartupMessage(params) => {
            be_i32(PROTOCOL_VERSION) + many_bytes(param_writer(), params) + seq![0u8]
        },
        FrontendMessageView::Sync => Seq::empty(),
        FrontendMessageView::Terminate => Seq::empty(),
    }
}

/// The frame of a command.
pub open spec fn command_frame(m: FrontendMessageView) -> Seq<u8> {
    frame(command_tag(m), command_body(m))
}

/// The count of `n` values as its 16-bit field holds it.
fn count_i16(n: usize) -> (r: i16)
    ensures
        r == wrap_i16(n as int),
{
    let m: usize = n % 0x1_0000;
    if m < 0x8000 {
        m as i16
    } else {
        (m as i32 - 0x1_0000) as i16
    }
}

/// Appends a count and that many 16-bit integers.
fn write_i16_list(buf: &mut Vec<u8>, vs: &[i16])
    ensures
        final(buf)@ == old(buf)@ + counted_bytes(i16_writer(), vs@),
{
    write_be_i16(buf, count_i16(vs.len()));
    let ghost start = buf@;
    let mut i: usize = 0;
    while i < vs.len()
        invariant
            i <= vs.len(),
            buf@ == start + many_bytes(i16_writer(), vs@.take(i as int)),
        decreases vs.len() - i,
    {
        proof {
            lemma_many_bytes_push(i16_writer(), vs@.take(i as int), vs@[i as int]);
            assert(vs@.take(i as int).push(vs@[i as int]) =~= vs@.take(i + 1));
        }
        write_be_i16(buf, vs[i]);
        i += 1;
    }
    assert(vs@.take(vs.len() as int) =~= vs@);
}

/// Appends a count and that many 32-bit integers.
fn write_i32_list(buf: &mut Vec<u8>, vs: &[i32])
    ensures
        final(buf)@ == old(buf)@ + counted_bytes(i32_writer(), vs@),
{
    write_be_i16(buf, count_i16(vs.len()));
    let ghost start = buf@;
    let mut i: usize = 0;
    while i < vs.len()
        invariant
            i <= vs.len(),
            buf@ == start + many_bytes(i32_writer(), vs@.take(i as int)),
        decreases vs.len() - i,
    {
        proof {
            lemma_many_bytes_push(i32_writer(), vs@.take(i as int), vs@[i as int]);
            assert(vs@.take(i as int).push(vs@[i as int]) =~= vs@.take(i + 1));
        }
        write_be_i32(buf, vs[i]);
        i += 1;
    }
    assert(vs@.take(vs.len() as int) =~= vs@);
}

/// Appends a count and that many nullable blobs.
fn write_blob_list(buf: &mut Vec<u8>, vs: &[Option<Vec<u8>>])
    ensures
        final(buf)@ == old(buf)@ + counted_bytes(blob_writer(), vs.deep_view()),
{
    write_be_i16(buf, count_i16(vs.len()));
    let ghost start = buf@;
    let ghost all = vs.deep_view();
    let mut i: usize = 0;
    while i < vs.len()
        invariant
            i <= vs.len(),
            all == vs.deep_view(),
            buf@ == start + many_bytes(blob_writer(), all.take(i as int)),
        decreases vs.len() - i,
    {
        proof {
            lemma_many_bytes_push(blob_writer(), all.take(i as int), all[i as int]);
            assert(all.take(i as int).push(all[i as int]) =~= all.take(i + 1));
        }
        write_blob(buf, &vs[i]);
        i += 1;
    }
    assert(all.take(vs.len() as int) =~= all);
}

/// Appends the parameters of a startup message, each as name and value.
fn write_params(buf: &mut Vec<u8>, params: &[(&str, &str)])
    ensures
        final(buf)@ == old(buf)@ + many_bytes(param_writer(), params_view(params@)),
{
    let ghost start = buf@;
    let ghost all = params_view(params@);
    let mut i: usize = 0;
    assert(buf@ =~= start + many_bytes(param_writer(), all.take(0)));
    while i < params.len()
        invariant
            i <= params.len(),
            all == params_view(params@),
            buf@ == start + many_bytes(param_writer(), all.take(i as int)),
        decreases params.len() - i,
    {
        proof {
            lemma_many_bytes_push(param_writer(), all.take(i as int), all[i as int]);
            assert(all.take(i as int).push(all[i as int]) =~= all.take(i + 1));
        }
        let (name, value) = params[i];
        write_string(buf, name);
        write_string(buf, value);
        i += 1;
    }
    assert(all.take(params.len() as int) =~= all);
}

/// The body of `message`.
fn encode_body(message: &FrontendMessage) -> (body: Vec<u8>)
    ensures
        body@ == command_body(message@),
{
    let mut buf: Vec<u8> = Vec::new();
    match message {
        FrontendMessage::Bind(portal, statement, formats, values, result_formats) => {
            write_string(&mut buf, portal);
            write_string(&mut buf, statement);
            write_i16_list(&mut buf, formats);
            write_blob_list(&mut buf, values);
            write_i16_list(&mut buf, result_formats);
        },
        FrontendMessage::Close(kind, name) => {
            write_u8(&mut buf, *kind);
            write_string(&mut buf, name);
        },
        FrontendMessage::Describe(kind, name) => {
            write_u8(&mut buf, *kind);
            write_string(&mut buf, name);
        },
        FrontendMessage::Execute(portal, rows) => {
            write_string(&mut buf, portal);
            write_be_i32(&mut buf, *rows);
        },
        FrontendMessage::Parse(name, query, types) => {
            write_string(&mut buf, name);
            write_string(&mut buf, query);
            write_i32_list(&mut buf, types);
        },
        FrontendMessage::Query(query) => {
            write_string(&mut buf, query);
        },
        FrontendMessage::StartupMessage(params) => {
            write_be_i32(&mut buf, PROTOCOL_VERSION);
            write_params(&mut buf, params);
            write_u8(&mut buf, 0);
        },
        FrontendMessage::Sync => {},
        FrontendMessage::Terminate => {},
    }
    assert(buf@ =~= command_body(message@));
    buf
}

/// The tag byte of `message`, where it has one.
fn tag_of(message: &FrontendMessage) -> (tag: Option<u8>)
    ensures
        tag == command_tag(message@),
{
    match message {
        FrontendMessage::Bind(..) => Some(TAG_BIND),
        FrontendMessage::Close(..) => Some(TAG_CLOSE),
        FrontendMessage::Describe(..) => Some(TAG_DESCRIBE),
        FrontendMessage::Execute(..) => Some(TAG_EXECUTE),
        FrontendMessage::Parse(..) => Some(TAG_PARSE),
        FrontendMessage::Query(..) => Some(TAG_QUERY),
        FrontendMessage::StartupMessage(..) => None,
        FrontendMessage::Sync => Some(TAG_SYNC),
        FrontendMessage::Terminate => Some(TAG_TERMINATE),
    }
}

/// A sink of bytes to which commands are written.
pub trait WriteMessage {
    /// Everything that has been written to the sink.
    spec fn written(&self) -> Seq<u8>;

    /// Writes `message` as one frame: nothing of it is written before its
    /// whole body is known.
    fn write_message(&mut self, message: &FrontendMessage)
        ensures
            final(self).written() == old(self).written() + command_frame(message@),
    ;
}

impl WriteMessage for Vec<u8> {
    open spec fn written(&self) -> Seq<u8> {
        self@
    }

    fn write_message(&mut self, message: &FrontendMessage) {
        let body = encode_body(message);
        let ghost before = self@;
        match tag_of(message) {
            Some(tag) => {
                write_u8(self, tag);
            },
            None => {},
        }
        write_be_i32(self, length_i32(body.len() as u128 + 4));
        write_bytes(self, body.as_slice());
        assert(self@ =~= before + command_frame(message@));
    }
}

/// The frame of `message`.
pub fn encode(message: &FrontendMessage) -> (bytes: Vec<u8>)
    ensures
        bytes@ == command_frame(message@),
{
    let mut out: Vec<u8> = Vec::new();
    out.write_message(message);
    out
}

} // verus!
