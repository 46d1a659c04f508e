//! The messages of the protocol: commands that a client sends and responses
//! that a server returns, with their mathematical views.

pub use crate::command::WriteMessage;
pub use crate::response::ReadMessage;
use std::collections::HashMap;
use vstd::prelude::*;
use vstd::string::*;
use vstd::utf8::encode_utf8_decode_utf8;

verus! {

/// The protocol version that a startup message announces.
pub const PROTOCOL_VERSION: i32 = 0x0003_0000;

/// The tag bytes of the commands, each the ASCII code of the letter named.
pub const TAG_BIND: u8 = 0x42;  // B
pub const TAG_CLOSE: u8 = 0x43;  // C
pub const TAG_DESCRIBE: u8 = 0x44;  // D
pub const TAG_EXECUTE: u8 = 0x45;  // E
pub const TAG_PARSE: u8 = 0x50;  // P
pub const TAG_QUERY: u8 = 0x51;  // Q
pub const TAG_SYNC: u8 = 0x53;  // S
pub const TAG_TERMINATE: u8 = 0x58;  // X

/// The tag bytes of the responses, each the ASCII code of the character named.
pub const TAG_PARSE_COMPLETE: u8 = 0x31;  // 1
pub const TAG_BIND_COMPLETE: u8 = 0x32;  // 2
pub const TAG_CLOSE_COMPLETE: u8 = 0x33;  // 3
pub const TAG_COMMAND_COMPLETE: u8 = 0x43;  // C
pub const TAG_DATA_ROW: u8 = 0x44;  // D
pub const TAG_ERROR_RESPONSE: u8 = 0x45;  // E
pub const TAG_EMPTY_QUERY_RESPONSE: u8 = 0x49;  // I
pub const TAG_BACKEND_KEY_DATA: u8 = 0x4b;  // K
pub const TAG_NO_DATA: u8 = 0x6e;  // n
pub const TAG_NOTICE_RESPONSE: u8 = 0x4e;  // N
pub const TAG_AUTHENTICATION: u8 = 0x52;  // R
pub const TAG_PARAMETER_STATUS: u8 = 0x53;  // S
pub const TAG_PARAMETER_DESCRIPTION: u8 = 0x74;  // t
pub const TAG_ROW_DESCRIPTION: u8 = 0x54;  // T
pub const TAG_READY_FOR_QUERY: u8 = 0x5a;  // Z

/// One column of a row description.
#[derive(Clone, Debug, PartialEq, Eq)]
pub struct RowDescriptionEntry {
    pub name: String,
    pub table_oid: i32,
    pub column_id: i16,
    pub type_oid: i32,
    pub type_size: i16,
    pub type_modifier: i32,
    pub format: i16,
}

/// A response, as sent by the server.
#[derive(Clone, Debug, PartialEq, Eq)]
pub enum BackendMessage {
    AuthenticationOk,
    /// Process id and secret key.
    BackendKeyData(i32, i32),
    BindComplete,
    CloseComplete,
    /// The command tag.
    CommandComplete(String),
    /// One value per column; `None` is SQL NULL.
    DataRow(Vec<Option<Vec<u8>>>),
    EmptyQueryResponse,
    /// Field code to field text.
    ErrorResponse(HashMap<u8, String>),
    NoData,
    /// Field code to field text.
    NoticeResponse(HashMap<u8, String>),
    /// The type of each parameter.
    ParameterDescription(Vec<i32>),
    /// Name and value.
    ParameterStatus(String, String),
    ParseComplete,
    /// The transaction status byte.
    ReadyForQuery(u8),
    RowDescription(Vec<RowDescriptionEntry>),
}

/// A command, as sent by the client. Its fields are borrowed for the time of
/// one encoding.
#[derive(Clone, Debug, PartialEq, Eq)]
pub enum FrontendMessage<'a> {
    /// Portal, statement, parameter formats, parameter values, result formats.
    Bind(&'a str, &'a str, &'a [i16], &'a [Option<Vec<u8>>], &'a [i16]),
    /// Kind selector and name.
    Close(u8, &'a str),
    /// Kind selector and name.
    Describe(u8, &'a str),
    /// Portal and the maximum number of rows, 0 for no limit.
    Execute(&'a str, i32),
    /// Name, query text, parameter types.
    Parse(&'a str, &'a str, &'a [i32]),
    Query(&'a str),
    /// Parameter names and values. They are a list and not a map, so that
    /// the frame is a function of the message: they are written in this
    /// order. A well-formed message names no parameter twice, as a map
    /// would see to; `FrontendMessage::startup` builds such a message.
    StartupMessage(&'a [(&'a str, &'a str)]),
    Sync,
    Terminate,
}

/// What a `RowDescriptionEntry` stands for.
pub struct RowDescriptionEntryView {
    pub name: Seq<char>,
    pub table_oid: i32,
    pub column_id: i16,
    pub type_oid: i32,
    pub type_size: i16,
    pub type_modifier: i32,
    pub format: i16,
}

/// What a `BackendMessage` stands for.
pub enum BackendMessageView {
    AuthenticationOk,
    BackendKeyData(i32, i32),
    BindComplete,
    CloseComplete,
    CommandComplete(Seq<char>),
    DataRow(Seq<Option<Seq<u8>>>),
    EmptyQueryResponse,
    ErrorResponse(Map<u8, Seq<char>>),
    NoData,
    NoticeResponse(Map<u8, Seq<char>>),
    ParameterDescription(Seq<i32>),
    ParameterStatus(Seq<char>, Seq<char>),
    ParseComplete,
    ReadyForQuery(u8),
    RowDescription(Seq<RowDescriptionEntryView>),
}

/// What a `FrontendMessage` stands for.
pub enum FrontendMessageView {
    Bind(Seq<char>, Seq<char>, Seq<i16>, Seq<Option<Seq<u8>>>, Seq<i16>),
    Close(u8, Seq<char>),
    Describe(u8, Seq<char>),
    Execute(Seq<char>, i32),
    Parse(Seq<char>, Seq<char>, Seq<i32>),
    Query(Seq<char>),
    StartupMessage(Seq<(Seq<char>, Seq<char>)>),
    Sync,
    Terminate,
}

impl View for RowDescriptionEntry {
    type V = RowDescriptionEntryView;

    open spec fn view(&self) -> RowDescriptionEntryView {
        RowDescriptionEntryView {
            name: self.name@,
            table_oid: self.table_oid,
            column_id: self.column_id,
            type_oid: self.type_oid,
            type_size: self.type_size,
            type_modifier: self.type_modifier,
            format: self.format,
        }
    }
}

/// The texts of a field map, each taken by its characters.
pub open spec fn field_map_view(m: Map<u8, String>) -> Map<u8, Seq<char>> {
    m.map_values(|s: String| s@)
}

/// The entries of a row description, each taken by its view.
pub open spec fn entries_view(v: Seq<RowDescriptionEntry>) -> Seq<RowDescriptionEntryView> {
    v.map_values(|e: RowDescriptionEntry| e@)
}

/// The parameters of a startup message, each taken by its characters.
pub open spec fn params_view(v: Seq<(&str, &str)>) -> Seq<(Seq<char>, Seq<char>)> {
    v.map_values(|p: (&str, &str)| (p.0@, p.1@))
}

impl View for BackendMessage {
    type V = BackendMessageView;

    open spec fn view(&self) -> BackendMessageView {
        match self {
            BackendMessage::AuthenticationOk => BackendMessageView::AuthenticationOk,
            BackendMessage::BackendKeyData(p, k) => BackendMessageView::BackendKeyData(*p, *k),
            BackendMessage::BindComplete => BackendMessageView::BindComplete,
            BackendMessage::CloseComplete => BackendMessageView::CloseComplete,
            BackendMessage::CommandComplete(t) => BackendMessageView::CommandComplete(t@),
            BackendMessage::DataRow(v) => BackendMessageView::DataRow(v.deep_view()),
            BackendMessage::EmptyQueryResponse => BackendMessageView::EmptyQueryResponse,
            BackendMessage::ErrorResponse(m) => BackendMessageView::ErrorResponse(
                field_map_view(m@),
            ),
            BackendMessage::NoData => BackendMessageView::NoData,
            BackendMessage::NoticeResponse(m) => BackendMessageView::NoticeResponse(
                field_map_view(m@),
            ),
            BackendMessage::ParameterDescription(v) => BackendMessageView::ParameterDescription(
                v@,
            ),
            BackendMessage::ParameterStatus(n, v) => BackendMessageView::ParameterStatus(n@, v@),
            BackendMessage::ParseComplete => BackendMessageView::ParseComplete,
            BackendMessage::ReadyForQuery(s) => BackendMessageView::ReadyForQuery(*s),
            BackendMessage::RowDescription(v) => BackendMessageView::RowDescription(
                entries_view(v@),
            ),
        }
    }
}

impl<'a> View for FrontendMessage<'a> {
    type V = FrontendMessageView;

    open spec fn view(&self) -> FrontendMessageView {
        match self {
            FrontendMessage::Bind(portal, statement, formats, values, result_formats) => {
                FrontendMessageView::Bind(
                    portal@,
                    statement@,
                    formats@,
                    values.deep_view(),
                    result_formats@,
                )
            },
            FrontendMessage::Close(kind, name) => FrontendMessageView::Close(*kind, name@),
            FrontendMessage::Describe(kind, name) => FrontendMessageView::Describe(*kind, name@),
            FrontendMessage::Execute(portal, rows) => FrontendMessageView::Execute(portal@, *rows),
            FrontendMessage::Parse(name, query, types) => FrontendMessageView::Parse(
                name@,
                query@,
                types@,
            ),
            FrontendMessage::Query(query) => FrontendMessageView::Query(query@),
            FrontendMessage::StartupMessage(params) => FrontendMessageView::StartupMessage(
                params_view(params@),
            ),
            FrontendMessage::Sync => FrontendMessageView::Sync,
            FrontendMessage::Terminate => FrontendMessageView::Terminate,
        }
    }
}

/// No name occurs twice among the parameters.
pub open spec fn distinct_names(params: Seq<(Seq<char>, Seq<char>)>) -> bool {
    forall|i: int, j: int|
        0 <= i < j < params.len() ==> (#[trigger] params[i]).0 != (#[trigger] params[j]).0
}

impl FrontendMessageView {
    /// What holds of a command beyond its shape: a startup message names no
    /// parameter twice.
    pub open spec fn well_formed(self) -> bool {
        self matches FrontendMessageView::StartupMessage(params) ==> distinct_names(params)
    }
}

/// Whether two texts hold the same characters.
fn same_text(a: &str, b: &str) -> (r: bool)
    ensures
        r == (a@ == b@),
{
    let x = a.as_bytes();
    let y = b.as_bytes();
    proof {
        encode_utf8_decode_utf8(a@);
        encode_utf8_decode_utf8(b@);
    }
    if x.len() != y.len() {
        return false;
    }
    let mut i: usize = 0;
    while i < x.len()
        invariant
            i <= x.len(),
            x.len() == y.len(),
            forall|k: int| 0 <= k < i ==> x@[k] == y@[k],
            x@ == y@ ==> a@ == b@,
            a@ == b@ ==> x@ == y@,
        decreases x.len() - i,
    {
        if x[i] != y[i] {
            return false;
        }
        i += 1;
    }
    assert(x@ =~= y@);
    true
}

/// Whether the name at `at` differs from every name before it.
fn name_is_new(params: &[(&str, &str)], at: usize) -> (r: bool)
    requires
        at < params.len(),
    ensures
        r == forall|i: int|
            0 <= i < at ==> (#[trigger] params_view(params@)[i]).0 != params_view(
                params@,
            )[at as int].0,
{
    let mut i: usize = 0;
    while i < at
        invariant
            i <= at < params.len(),
            forall|k: int|
                0 <= k < i ==> (#[trigger] params_view(params@)[k]).0 != params_view(
                    params@,
                )[at as int].0,
        decreases at - i,
    {
        if same_text(params[i].0, params[at].0) {
            assert(params_view(params@)[i as int].0 == params_view(params@)[at as int].0);
            return false;
        }
        i += 1;
    }
    true
}

impl<'a> FrontendMessage<'a> {
    /// The startup message with the parameters `params`, where no name
    /// occurs twice among them, and none else.
    pub fn startup(params: &'a [(&'a str, &'a str)]) -> (r: Option<FrontendMessage<'a>>)
        ensures
            r is Some <==> distinct_names(params_view(params@)),
            r matches Some(m) ==> m@ == FrontendMessageView::StartupMessage(params_view(params@))
                && m@.well_formed(),
    {
        let mut j: usize = 0;
        while j < params.len()
            invariant
                j <= params.len(),
                forall|i: int, k: int|
                    0 <= i < k < j ==> (#[trigger] params_view(params@)[i]).0 != (
                    #[trigger] params_view(params@)[k]).0,
            decreases params.len() - j,
        {
            if !name_is_new(params, j) {
                return None;
            }
            j += 1;
        }
        Some(FrontendMessage::StartupMessage(params))
    }
}

} // verus!
